use parity_store::erasure_coding::xor::ErasureError;
use parity_store::erasurecoding::xor::{
    calculate_ec_block, pad_block, pad_string, reconstruct_block, split_into_blocks, TEXT_BLOCKS,
};

#[test]
fn pad_string_fills_up_to_a_multiple_of_four() {
    assert_eq!(pad_string("abc"), "abc\0");
    assert_eq!(pad_string("abcde"), "abcde\0\0\0");
    assert_eq!(pad_string("ab"), "ab\0\0");
}

#[test]
fn pad_string_leaves_a_multiple_of_four_alone() {
    assert_eq!(pad_string(""), "");
    assert_eq!(pad_string("abcd"), "abcd");
    assert_eq!(pad_string("abcdefgh"), "abcdefgh");
}

#[test]
fn pad_string_counts_bytes_not_characters() {
    // two bytes in UTF-8
    assert_eq!(pad_string("\u{e9}"), "\u{e9}\0\0");
    // three bytes in UTF-8, and one more
    assert_eq!(pad_string("\u{20ac}a"), "\u{20ac}a");
}

#[test]
fn text_is_split_into_four_blocks() {
    assert_eq!(TEXT_BLOCKS, 4);
    let blocks = split_into_blocks("abcdefgh").unwrap();
    assert_eq!(blocks, vec!["ab", "cd", "ef", "gh"]);
    let blocks = split_into_blocks("abcd").unwrap();
    assert_eq!(blocks, vec!["a", "b", "c", "d"]);
}

#[test]
fn text_that_does_not_divide_leaves_a_rest() {
    let blocks = split_into_blocks("abcde").unwrap();
    assert_eq!(blocks, vec!["a", "b", "c", "d", "e"]);
    let blocks = split_into_blocks("abcdefghij").unwrap();
    assert_eq!(blocks, vec!["ab", "cd", "ef", "gh", "ij"]);
    let blocks = split_into_blocks("abcdefghi").unwrap();
    assert_eq!(blocks, vec!["ab", "cd", "ef", "gh", "i"]);
}

#[test]
fn text_blocks_are_measured_in_bytes_and_cut_in_characters() {
    // four characters of two bytes each: blocks of two characters
    let blocks = split_into_blocks("\u{e9}\u{e8}\u{ea}\u{eb}").unwrap();
    assert_eq!(blocks, vec!["\u{e9}\u{e8}", "\u{ea}\u{eb}"]);
}

#[test]
fn text_under_four_bytes_is_rejected() {
    assert_eq!(split_into_blocks(""), Err(ErasureError::InvalidSize));
    assert_eq!(split_into_blocks("abc"), Err(ErasureError::InvalidSize));
}

#[test]
fn padded_text_survives_the_loss_of_a_block() {
    let padded = pad_string("Hello, this is a test string!");
    assert_eq!(padded.len(), 32);
    let blocks = split_into_blocks(&padded).unwrap();
    assert_eq!(blocks, vec!["Hello, t", "his is a", " test st", "ring!\0\0\0"]);
    let bytes: Vec<&[u8]> = blocks.iter().map(|b| b.as_bytes()).collect();
    let parity = calculate_ec_block(&bytes).unwrap();
    let surviving: Vec<&[u8]> = vec![bytes[0], bytes[2], bytes[3]];
    assert_eq!(reconstruct_block(&surviving, &parity), Ok(b"his is a".to_vec()));
}

#[test]
fn byte_padding_is_shared_with_the_text_variant() {
    assert_eq!(pad_block(b"ab", 4, 0), Ok(b"ab\0\0".to_vec()));
    assert_eq!(pad_block(b"abcde", 4, 0), Err(ErasureError::InvalidSize));
}
