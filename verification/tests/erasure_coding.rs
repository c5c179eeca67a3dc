use parity_store::erasure_coding::xor::{
    calculate_ec_block, create_blocks, pad_block, reconstruct_block, split_into_blocks,
    ErasureError,
};

#[test]
fn test_ec() {
    let input = "Hello, this is a test string!";

    // Create 4 equal blocks with zero padding
    let blocks: Vec<Vec<u8>> = create_blocks(input.as_bytes(), 4, 0).unwrap();

    // Convert blocks to slice references for calculate_ec_block
    let block_refs: Vec<&[u8]> = blocks.iter().map(|b| b.as_ref()).collect();

    // Calculate erasure coding block (XOR of all blocks)
    let ec_block = calculate_ec_block(&block_refs).unwrap();

    println!("Original blocks:");
    for (i, block) in blocks.iter().enumerate() {
        println!("Block {}: {}", i + 1, String::from_utf8_lossy(block));
    }
    println!("EC block: {}", String::from_utf8_lossy(&ec_block));

    // Simulate loss of block 4 and reconstruct it
    let reconstruction_refs: Vec<&[u8]> = blocks[0..3].iter().map(|b| b.as_ref()).collect();
    let reconstructed = reconstruct_block(&reconstruction_refs, &ec_block).unwrap();
    println!(
        "\nReconstructed block 4: {}",
        String::from_utf8_lossy(&reconstructed)
    );

    // Verify reconstruction
    assert_eq!(blocks[3], reconstructed);

    // Combine blocks to get original string
    let mut final_string = String::new();
    for i in 0..3 {
        final_string.push_str(&String::from_utf8_lossy(&blocks[i]));
    }
    final_string.push_str(&String::from_utf8_lossy(&reconstructed));

    // Remove padding
    let final_string = final_string.trim_end_matches('\0');
    println!("\nFinal reconstructed string: {}", final_string);
    assert_eq!(final_string, input);
}

#[test]
fn pad_block_appends_pad_bytes() {
    assert_eq!(pad_block(&[1, 2, 3], 5, 9), Ok(vec![1, 2, 3, 9, 9]));
    assert_eq!(pad_block(&[1, 2, 3], 3, 9), Ok(vec![1, 2, 3]));
    assert_eq!(pad_block(&[], 2, 7), Ok(vec![7, 7]));
    assert_eq!(pad_block(&[], 0, 7), Ok(vec![]));
}

#[test]
fn pad_block_rejects_a_smaller_target() {
    assert_eq!(pad_block(&[1, 2, 3], 2, 0), Err(ErasureError::InvalidSize));
}

#[test]
fn split_into_blocks_rejects_bad_counts() {
    assert_eq!(split_into_blocks(&[1, 2, 3, 4], 0), Err(ErasureError::InvalidBlockCount));
    assert_eq!(split_into_blocks(&[1, 2, 3, 4, 5], 2), Err(ErasureError::InvalidSize));
}

fn refs(blocks: &[Vec<u8>]) -> Vec<&[u8]> {
    blocks.iter().map(|b| b.as_slice()).collect()
}

#[test]
fn padding_is_idempotent() {
    let once = pad_block(b"abc", 8, b'.').unwrap();
    let twice = pad_block(&once, 8, b'.').unwrap();
    assert_eq!(once, b"abc.....".to_vec());
    assert_eq!(twice, once);
}

#[test]
fn parity_is_the_bytewise_xor() {
    let blocks: Vec<&[u8]> = vec![&[0x0f, 0xf0, 0x01], &[0xff, 0x00, 0x02], &[0x11, 0x22, 0x04]];
    assert_eq!(calculate_ec_block(&blocks), Ok(vec![0xe1, 0xd2, 0x07]));
}

#[test]
fn parity_of_one_block_is_that_block() {
    let blocks: Vec<&[u8]> = vec![&[7, 8, 9]];
    assert_eq!(calculate_ec_block(&blocks), Ok(vec![7, 8, 9]));
}

#[test]
fn parity_does_not_depend_on_the_order() {
    let b1: &[u8] = &[1, 2, 3, 4];
    let b2: &[u8] = &[0x10, 0x20, 0x30, 0x40];
    let b3: &[u8] = &[0xaa, 0xbb, 0xcc, 0xdd];
    let forward = calculate_ec_block(&[b1, b2, b3]).unwrap();
    let rotated = calculate_ec_block(&[b3, b1, b2]).unwrap();
    let swapped = calculate_ec_block(&[b2, b1, b3]).unwrap();
    assert_eq!(forward, vec![0xbb, 0x99, 0xff, 0x99]);
    assert_eq!(rotated, forward);
    assert_eq!(swapped, forward);
}

#[test]
fn parity_rejects_blocks_of_differing_length() {
    let blocks: Vec<&[u8]> = vec![&[1, 2, 3], &[4, 5]];
    assert_eq!(calculate_ec_block(&blocks), Err(ErasureError::SizeMismatch));
    let blocks: Vec<&[u8]> = vec![&[1, 2], &[4, 5], &[]];
    assert_eq!(calculate_ec_block(&blocks), Err(ErasureError::SizeMismatch));
}

#[test]
fn parity_of_no_blocks_is_rejected() {
    let blocks: Vec<&[u8]> = Vec::new();
    assert_eq!(calculate_ec_block(&blocks), Err(ErasureError::InvalidBlockCount));
}

#[test]
fn parity_of_empty_blocks_is_empty() {
    let blocks: Vec<&[u8]> = vec![&[], &[]];
    assert_eq!(calculate_ec_block(&blocks), Ok(vec![]));
}

#[test]
fn reconstruct_recovers_every_choice_of_missing_block() {
    let blocks: Vec<Vec<u8>> = vec![
        vec![0x00, 0x01, 0x02, 0x03],
        vec![0xff, 0xfe, 0xfd, 0xfc],
        vec![0x55, 0xaa, 0x55, 0xaa],
        vec![0x12, 0x34, 0x56, 0x78],
    ];
    let parity = calculate_ec_block(&refs(&blocks)).unwrap();
    for missing in 0..blocks.len() {
        let mut surviving = blocks.clone();
        let lost = surviving.remove(missing);
        assert_eq!(reconstruct_block(&refs(&surviving), &parity), Ok(lost));
    }
}

#[test]
fn reconstruct_with_two_blocks() {
    let first: &[u8] = &[1, 2, 3];
    let second: &[u8] = &[9, 8, 7];
    let parity = calculate_ec_block(&[first, second]).unwrap();
    assert_eq!(parity, vec![8, 10, 4]);
    assert_eq!(reconstruct_block(&[first], &parity), Ok(second.to_vec()));
    assert_eq!(reconstruct_block(&[second], &parity), Ok(first.to_vec()));
}

#[test]
fn reconstruct_rejects_mismatched_lengths() {
    let parity: &[u8] = &[1, 2, 3];
    assert_eq!(reconstruct_block(&[&[1, 2]], parity), Err(ErasureError::SizeMismatch));
    assert_eq!(
        reconstruct_block(&[&[1, 2, 3], &[1, 2, 3, 4]], parity),
        Err(ErasureError::SizeMismatch)
    );
    assert_eq!(reconstruct_block(&[&[1, 2, 3]], &[]), Err(ErasureError::SizeMismatch));
}

#[test]
fn reconstruct_from_no_blocks_is_rejected() {
    let surviving: Vec<&[u8]> = Vec::new();
    assert_eq!(reconstruct_block(&surviving, &[1, 2, 3]), Err(ErasureError::InvalidBlockCount));
    assert_eq!(reconstruct_block(&surviving, &[]), Err(ErasureError::InvalidBlockCount));
}

#[test]
fn create_blocks_rejects_a_count_of_zero() {
    assert_eq!(create_blocks(b"abc", 0, 0), Err(ErasureError::InvalidBlockCount));
    assert_eq!(create_blocks(b"", 0, 0), Err(ErasureError::InvalidBlockCount));
}

#[test]
fn create_blocks_pads_the_last_block() {
    let blocks = create_blocks(b"Hello, this is a test string!", 4, 0).unwrap();
    assert_eq!(blocks.len(), 4);
    assert_eq!(blocks[0], b"Hello, t".to_vec());
    assert_eq!(blocks[1], b"his is a".to_vec());
    assert_eq!(blocks[2], b" test st".to_vec());
    assert_eq!(blocks[3], b"ring!\0\0\0".to_vec());
}

#[test]
fn create_blocks_rounds_the_block_size_up() {
    let blocks = create_blocks(&[1, 2, 3, 4, 5], 3, 0xee).unwrap();
    assert_eq!(blocks, vec![vec![1, 2], vec![3, 4], vec![5, 0xee]]);
    let blocks = create_blocks(&[1, 2], 4, 0xee).unwrap();
    assert_eq!(blocks, vec![vec![1], vec![2], vec![0xee], vec![0xee]]);
}

#[test]
fn create_blocks_of_an_empty_input_are_empty() {
    let blocks = create_blocks(b"", 3, 0).unwrap();
    assert_eq!(blocks, vec![Vec::<u8>::new(), Vec::new(), Vec::new()]);
}

#[test]
fn split_and_rejoin_reproduces_an_even_input() {
    let input = b"0123456789ab";
    for count in [1usize, 2, 3, 4, 6, 12] {
        let blocks = create_blocks(input, count, 0).unwrap();
        assert_eq!(blocks.len(), count);
        assert!(blocks.iter().all(|b| b.len() == input.len() / count));
        assert_eq!(blocks.concat(), input.to_vec());
    }
}

#[test]
fn split_and_rejoin_reproduces_an_uneven_input_up_to_its_length() {
    let input = b"0123456789";
    let blocks = create_blocks(input, 4, b'#').unwrap();
    let joined = blocks.concat();
    assert_eq!(joined, b"0123456789##".to_vec());
    assert_eq!(&joined[..input.len()], input);
}

#[test]
fn split_into_blocks_cuts_in_order() {
    let input: &[u8] = &[1, 2, 3, 4, 5, 6];
    let blocks = split_into_blocks(input, 3).unwrap();
    let expected: Vec<&[u8]> = vec![&[1, 2], &[3, 4], &[5, 6]];
    assert_eq!(blocks, expected);
    let whole = split_into_blocks(input, 1).unwrap();
    assert_eq!(whole, vec![input]);
    let none = split_into_blocks(&[], 2).unwrap();
    let empty: Vec<&[u8]> = vec![&[], &[]];
    assert_eq!(none, empty);
}

#[test]
fn end_to_end_recovery_of_the_fourth_block() {
    let input = b"Hello, this is a test string!";
    assert_eq!(input.len(), 29);
    let blocks = create_blocks(input, 4, 0).unwrap();
    assert!(blocks.iter().all(|b| b.len() == 8));
    let parity = calculate_ec_block(&refs(&blocks)).unwrap();
    assert_eq!(parity, vec![0x72, 0x11, 0x14, 0x58, 0x53, 0x7f, 0x73, 0x61]);
    let rebuilt = reconstruct_block(&refs(&blocks[0..3]), &parity).unwrap();
    assert_eq!(rebuilt, blocks[3]);
    let mut joined = blocks[0..3].concat();
    joined.extend_from_slice(&rebuilt);
    while joined.last() == Some(&0) {
        joined.pop();
    }
    assert_eq!(joined, input.to_vec());
}
