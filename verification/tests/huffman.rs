use std::collections::HashMap;

use http3::qpack::prefix_string::code::code_for;
use http3::qpack::prefix_string::decode::Error;
use http3::qpack::prefix_string::{read_bits, HpackStringDecode, HpackStringEncode};

/// The symbols by their codes and code lengths.
fn codes() -> HashMap<(u32, u8), u16> {
    (0..=256).map(|symbol| (code_for(symbol), symbol)).collect()
}

/// Decodes bit by bit, by trying every code length at each place.
fn oracle_decode(codes: &HashMap<(u32, u8), u16>, content: &[u8]) -> Result<Vec<u8>, Error> {
    let total = content.len() * 8;
    let mut start = 0;
    let mut decoded = vec![];
    while start < total {
        let mut found = None;
        let mut code = 0;
        for length in 1..=30.min(total - start) {
            let bit = start + length - 1;
            code = 2 * code + u32::from(read_bits(content, bit / 8, bit % 8, 1).unwrap());
            if let Some(symbol) = codes.get(&(code, length as u8)) {
                found = Some((*symbol, length));
                break;
            }
        }
        match found {
            Some((256, _)) => return Err(Error::Eos),
            Some((symbol, length)) => {
                decoded.push(symbol as u8);
                start += length;
            }
            None => {
                let padding = total - start;
                let ones = (start..total).all(|bit| read_bits(content, bit / 8, bit % 8, 1) == Ok(1));
                if padding > 7 || !ones {
                    return Err(Error::InvalidPadding(padding));
                }
                break;
            }
        }
    }
    Ok(decoded)
}

#[test]
fn test_read_bits() {
    // Basic case (within one byte, aligned with start)
    assert_eq!(read_bits(&[0b1010_1010], 0, 0, 5), Ok(0b1_0101));
    // Within one byte, aligned with end of byte
    assert_eq!(read_bits(&[0b1010_1010], 0, 3, 5), Ok(0b1010));
    // Within one byte, unaligned with either side
    assert_eq!(read_bits(&[0b1010_1010], 0, 3, 3), Ok(0b10));
    // `len` == 0
    assert_eq!(read_bits(&[0b1010_1010], 0, 0, 0), Err(()));
    // `len` > 8
    assert_eq!(read_bits(&[0b1010_1010], 0, 0, 9), Err(()));

    // `bit_offset` > 7
    assert_eq!(
        read_bits(&[0b1010_1010, 0b1010_1010], 0, 8, 8),
        Ok(0b1010_1010)
    );
    // Read spanning two bytes
    assert_eq!(
        read_bits(&[0b1010_1010, 0b1010_1010], 0, 4, 8),
        Ok(0b1010_1010)
    );
    // Read with non-zero `byte_offset`
    assert_eq!(
        read_bits(&[0b1010_1010, 0b1010_1010], 1, 0, 5),
        Ok(0b1_0101)
    );
    // Read with `bit_offset` > 7, unaligned with either side
    assert_eq!(
        read_bits(&[0b1010_1010, 0b1010_1010], 0, 10, 5),
        Ok(0b1_0101)
    );
    // Read with `bit_offset` > 7 past end of input slice
    assert_eq!(
        read_bits(&[0b1010_1010, 0b1010_1010], 0, 16, 5),
        Err(())
    );
}

/**
 * https://tools.ietf.org/html/rfc7541
 * Appendix B.  Huffman Code
 */
#[test]
fn test_decode_single_value() {
    let codes: Vec<(u8, Vec<u8>)> = vec![
        (48, vec![(0b0_0000 << 3) | /* padding */ 0b111]), // '0'
        (49, vec![(0b0_0001 << 3) | /* padding */ 0b111]), // '1'
        (50, vec![(0b0_0010 << 3) | /* padding */ 0b111]), // '2'
        (97, vec![(0b0_0011 << 3) | /* padding */ 0b111]), // 'a'
        (99, vec![(0b0_0100 << 3) | /* padding */ 0b111]), // 'c'
        (101, vec![(0b0_0101 << 3) | /* padding */ 0b111]), // 'e'
        (105, vec![(0b0_0110 << 3) | /* padding */ 0b111]), // 'i'
        (111, vec![(0b0_0111 << 3) | /* padding */ 0b111]), // 'o'
        (115, vec![(0b0_1000 << 3) | /* padding */ 0b111]), // 's'
        (116, vec![(0b0_1001 << 3) | /* padding */ 0b111]), // 't'
        (32, vec![(0b01_0100 << 2) | /* padding */ 0b11]),
        (37, vec![(0b01_0101 << 2) | /* padding */ 0b11]), // '%'
        (45, vec![(0b01_0110 << 2) | /* padding */ 0b11]), // '-'
        (46, vec![(0b01_0111 << 2) | /* padding */ 0b11]), // '.'
        (47, vec![(0b01_1000 << 2) | /* padding */ 0b11]), // '/'
        (51, vec![(0b01_1001 << 2) | /* padding */ 0b11]), // '3'
        (52, vec![(0b01_1010 << 2) | /* padding */ 0b11]), // '4'
        (53, vec![(0b01_1011 << 2) | /* padding */ 0b11]), // '5'
        (54, vec![(0b01_1100 << 2) | /* padding */ 0b11]), // '6'
        (55, vec![(0b01_1101 << 2) | /* padding */ 0b11]), // '7'
        (56, vec![(0b01_1110 << 2) | /* padding */ 0b11]), // '8'
        (57, vec![(0b01_1111 << 2) | /* padding */ 0b11]), // '9'
        (61, vec![(0b10_0000 << 2) | /* padding */ 0b11]), // '='
        (65, vec![(0b10_0001 << 2) | /* padding */ 0b11]), // 'A'
        (95, vec![(0b10_0010 << 2) | /* padding */ 0b11]), // '_'
        (98, vec![(0b10_0011 << 2) | /* padding */ 0b11]), // 'b'
        (100, vec![(0b10_0100 << 2) | /* padding */ 0b11]), // 'd'
        (102, vec![(0b10_0101 << 2) | /* padding */ 0b11]), // 'f'
        (103, vec![(0b10_0110 << 2) | /* padding */ 0b11]), // 'g'
        (104, vec![(0b10_0111 << 2) | /* padding */ 0b11]), // 'h'
        (108, vec![(0b10_1000 << 2) | /* padding */ 0b11]), // 'l'
        (109, vec![(0b10_1001 << 2) | /* padding */ 0b11]), // 'm'
        (110, vec![(0b10_1010 << 2) | /* padding */ 0b11]), // 'n'
        (112, vec![(0b10_1011 << 2) | /* padding */ 0b11]), // 'p'
        (114, vec![(0b10_1100 << 2) | /* padding */ 0b11]), // 'r'
        (117, vec![(0b10_1101 << 2) | /* padding */ 0b11]), // 'u'
        (58, vec![(0b101_1100 << 1) | /* padding */ 0b1]), // ':'
        (66, vec![(0b101_1101 << 1) | /* padding */ 0b1]), // 'B'
        (67, vec![(0b101_1110 << 1) | /* padding */ 0b1]), // 'C'
        (68, vec![(0b101_1111 << 1) | /* padding */ 0b1]), // 'D'
        (69, vec![(0b110_0000 << 1) | /* padding */ 0b1]), // 'E'
        (70, vec![(0b110_0001 << 1) | /* padding */ 0b1]), // 'F'
        (71, vec![(0b110_0010 << 1) | /* padding */ 0b1]), // 'G'
        (72, vec![(0b110_0011 << 1) | /* padding */ 0b1]), // 'H'
        (73, vec![(0b110_0100 << 1) | /* padding */ 0b1]), // 'I'
        (74, vec![(0b110_0101 << 1) | /* padding */ 0b1]), // 'J'
        (75, vec![(0b110_0110 << 1) | /* padding */ 0b1]), // 'K'
        (76, vec![(0b110_0111 << 1) | /* padding */ 0b1]), // 'L'
        (77, vec![(0b110_1000 << 1) | /* padding */ 0b1]), // 'M'
        (78, vec![(0b110_1001 << 1) | /* padding */ 0b1]), // 'N'
        (79, vec![(0b110_1010 << 1) | /* padding */ 0b1]), // 'O'
        (80, vec![(0b110_1011 << 1) | /* padding */ 0b1]), // 'P'
        (81, vec![(0b110_1100 << 1) | /* padding */ 0b1]), // 'Q'
        (82, vec![(0b110_1101 << 1) | /* padding */ 0b1]), // 'R'
        (83, vec![(0b110_1110 << 1) | /* padding */ 0b1]), // 'S'
        (84, vec![(0b110_1111 << 1) | /* padding */ 0b1]), // 'T'
        (85, vec![(0b111_0000 << 1) | /* padding */ 0b1]), // 'U'
        (86, vec![(0b111_0001 << 1) | /* padding */ 0b1]), // 'V'
        (87, vec![(0b111_0010 << 1) | /* padding */ 0b1]), // 'W'
        (89, vec![(0b111_0011 << 1) | /* padding */ 0b1]), // 'Y'
        (106, vec![(0b111_0100 << 1) | /* padding */ 0b1]), // 'j'
        (107, vec![(0b111_0101 << 1) | /* padding */ 0b1]), // 'k'
        (113, vec![(0b111_0110 << 1) | /* padding */ 0b1]), // 'q'
        (118, vec![(0b111_0111 << 1) | /* padding */ 0b1]), // 'v'
        (119, vec![(0b111_1000 << 1) | /* padding */ 0b1]), // 'w'
        (120, vec![(0b111_1001 << 1) | /* padding */ 0b1]), // 'x'
        (121, vec![(0b111_1010 << 1) | /* padding */ 0b1]), // 'y'
        (122, vec![(0b111_1011 << 1) | /* padding */ 0b1]), // 'z'
        (38, vec![0b1111_1000]), // '&'
        (42, vec![0b1111_1001]), // '*'
        (44, vec![0b1111_1010]), // ','
        (59, vec![0b1111_1011]),
        (88, vec![0b1111_1100]), // 'X'
        (90, vec![0b1111_1101]), // 'Z'
        (33, vec![0b1111_1110, (0b00 << 6) | /* padding */ 0b11_1111]), // '!'
        (34, vec![0b1111_1110, (0b01 << 6) | /* padding */ 0b11_1111]), // '"'
        (40, vec![0b1111_1110, (0b10 << 6) | /* padding */ 0b11_1111]), // '('
        (41, vec![0b1111_1110, (0b11 << 6) | /* padding */ 0b11_1111]), // ')'
        (63, vec![0b1111_1111, (0b00 << 6) | /* padding */ 0b11_1111]), // '?'
        (39, vec![0b1111_1111, (0b010 << 5) | /* padding */ 0b11111]), // '''
        (43, vec![0b1111_1111, (0b011 << 5) | /* padding */ 0b11111]), // '+'
        (124, vec![0b1111_1111, (0b100 << 5) | /* padding */ 0b11111]), // '|'
        (35, vec![0b1111_1111, (0b1010 << 4) | /* padding */ 0b1111]), // '#'
        (62, vec![0b1111_1111, (0b1011 << 4) | /* padding */ 0b1111]), // '>'
        (0, vec![0b1111_1111, (0b11000 << 3) | /* padding */ 0b111]),
        (36, vec![0b1111_1111, (0b11001 << 3) | /* padding */ 0b111]), // '$'
        (64, vec![0b1111_1111, (0b11010 << 3) | /* padding */ 0b111]), // '@'
        (91, vec![0b1111_1111, (0b11011 << 3) | /* padding */ 0b111]), // '['
        (93, vec![0b1111_1111, (0b11100 << 3) | /* padding */ 0b111]), // ']'
        (126, vec![0b1111_1111, (0b11101 << 3) | /* padding */ 0b111]), // '~'
        (94, vec![0b1111_1111, (0b11_1100 << 2) | /* padding */ 0b11]), // '^'
        (125, vec![0b1111_1111, (0b11_1101 << 2) | /* padding */ 0b11]), // '}'
        (60, vec![0b1111_1111, (0b111_1100 << 1) | /* padding */ 0b1]), // '<'
        (96, vec![0b1111_1111, (0b111_1101 << 1) | /* padding */ 0b1]), // '`'
        (123, vec![0b1111_1111, (0b111_1110 << 1) | /* padding */ 0b1]), // '{'
        (92, vec![0b1111_1111, 0b1111_1110, (0b000 << 5) | /* padding */ 0b11111]), // '\'
        (195, vec![0b1111_1111, 0b1111_1110, (0b001 << 5) | /* padding */ 0b11111]),
        (208, vec![0b1111_1111, 0b1111_1110, (0b010 << 5) | /* padding */ 0b11111]),
        (128, vec![0b1111_1111, 0b1111_1110, (0b0110 << 4) | /* padding */ 0b1111]),
        (130, vec![0b1111_1111, 0b1111_1110, (0b0111 << 4) | /* padding */ 0b1111]),
        (131, vec![0b1111_1111, 0b1111_1110, (0b1000 << 4) | /* padding */ 0b1111]),
        (162, vec![0b1111_1111, 0b1111_1110, (0b1001 << 4) | /* padding */ 0b1111]),
        (184, vec![0b1111_1111, 0b1111_1110, (0b1010 << 4) | /* padding */ 0b1111]),
        (194, vec![0b1111_1111, 0b1111_1110, (0b1011 << 4) | /* padding */ 0b1111]),
        (224, vec![0b1111_1111, 0b1111_1110, (0b1100 << 4) | /* padding */ 0b1111]),
        (226, vec![0b1111_1111, 0b1111_1110, (0b1101 << 4) | /* padding */ 0b1111]),
        (153, vec![0b1111_1111, 0b1111_1110, (0b11100 << 3) | /* padding */ 0b111]),
        (161, vec![0b1111_1111, 0b1111_1110, (0b11101 << 3) | /* padding */ 0b111]),
        (167, vec![0b1111_1111, 0b1111_1110, (0b11110 << 3) | /* padding */ 0b111]),
        (172, vec![0b1111_1111, 0b1111_1110, (0b11111 << 3) | /* padding */ 0b111]),
        (176, vec![0b1111_1111, 0b1111_1111, (0b00000 << 3) | /* padding */ 0b111]),
        (177, vec![0b1111_1111, 0b1111_1111, (0b00001 << 3) | /* padding */ 0b111]),
        (179, vec![0b1111_1111, 0b1111_1111, (0b00010 << 3) | /* padding */ 0b111]),
        (209, vec![0b1111_1111, 0b1111_1111, (0b00011 << 3) | /* padding */ 0b111]),
        (216, vec![0b1111_1111, 0b1111_1111, (0b00100 << 3) | /* padding */ 0b111]),
        (217, vec![0b1111_1111, 0b1111_1111, (0b00101 << 3) | /* padding */ 0b111]),
        (227, vec![0b1111_1111, 0b1111_1111, (0b00110 << 3) | /* padding */ 0b111]),
        (229, vec![0b1111_1111, 0b1111_1111, (0b00111 << 3) | /* padding */ 0b111]),
        (230, vec![0b1111_1111, 0b1111_1111, (0b01000 << 3) | /* padding */ 0b111]),
        (129, vec![0b1111_1111, 0b1111_1111, (0b01_0010 << 2) | /* padding */ 0b11]),
        (132, vec![0b1111_1111, 0b1111_1111, (0b01_0011 << 2) | /* padding */ 0b11]),
        (133, vec![0b1111_1111, 0b1111_1111, (0b01_0100 << 2) | /* padding */ 0b11]),
        (134, vec![0b1111_1111, 0b1111_1111, (0b01_0101 << 2) | /* padding */ 0b11]),
        (136, vec![0b1111_1111, 0b1111_1111, (0b01_0110 << 2) | /* padding */ 0b11]),
        (146, vec![0b1111_1111, 0b1111_1111, (0b01_0111 << 2) | /* padding */ 0b11]),
        (154, vec![0b1111_1111, 0b1111_1111, (0b01_1000 << 2) | /* padding */ 0b11]),
        (156, vec![0b1111_1111, 0b1111_1111, (0b01_1001 << 2) | /* padding */ 0b11]),
        (160, vec![0b1111_1111, 0b1111_1111, (0b01_1010 << 2) | /* padding */ 0b11]),
        (163, vec![0b1111_1111, 0b1111_1111, (0b01_1011 << 2) | /* padding */ 0b11]),
        (164, vec![0b1111_1111, 0b1111_1111, (0b01_1100 << 2) | /* padding */ 0b11]),
        (169, vec![0b1111_1111, 0b1111_1111, (0b01_1101 << 2) | /* padding */ 0b11]),
        (170, vec![0b1111_1111, 0b1111_1111, (0b01_1110 << 2) | /* padding */ 0b11]),
        (173, vec![0b1111_1111, 0b1111_1111, (0b01_1111 << 2) | /* padding */ 0b11]),
        (178, vec![0b1111_1111, 0b1111_1111, (0b10_0000 << 2) | /* padding */ 0b11]),
        (181, vec![0b1111_1111, 0b1111_1111, (0b10_0001 << 2) | /* padding */ 0b11]),
        (185, vec![0b1111_1111, 0b1111_1111, (0b10_0010 << 2) | /* padding */ 0b11]),
        (186, vec![0b1111_1111, 0b1111_1111, (0b10_0011 << 2) | /* padding */ 0b11]),
        (187, vec![0b1111_1111, 0b1111_1111, (0b10_0100 << 2) | /* padding */ 0b11]),
        (189, vec![0b1111_1111, 0b1111_1111, (0b10_0101 << 2) | /* padding */ 0b11]),
        (190, vec![0b1111_1111, 0b1111_1111, (0b10_0110 << 2) | /* padding */ 0b11]),
        (196, vec![0b1111_1111, 0b1111_1111, (0b10_0111 << 2) | /* padding */ 0b11]),
        (198, vec![0b1111_1111, 0b1111_1111, (0b10_1000 << 2) | /* padding */ 0b11]),
        (228, vec![0b1111_1111, 0b1111_1111, (0b10_1001 << 2) | /* padding */ 0b11]),
        (232, vec![0b1111_1111, 0b1111_1111, (0b10_1010 << 2) | /* padding */ 0b11]),
        (233, vec![0b1111_1111, 0b1111_1111, (0b10_1011 << 2) | /* padding */ 0b11]),
        (1, vec![0b1111_1111, 0b1111_1111, (0b101_1000 << 1) | /* padding */ 0b1]),
        (135, vec![0b1111_1111, 0b1111_1111, (0b101_1001 << 1) | /* padding */ 0b1]),
        (137, vec![0b1111_1111, 0b1111_1111, (0b101_1010 << 1) | /* padding */ 0b1]),
        (138, vec![0b1111_1111, 0b1111_1111, (0b101_1011 << 1) | /* padding */ 0b1]),
        (139, vec![0b1111_1111, 0b1111_1111, (0b101_1100 << 1) | /* padding */ 0b1]),
        (140, vec![0b1111_1111, 0b1111_1111, (0b101_1101 << 1) | /* padding */ 0b1]),
        (141, vec![0b1111_1111, 0b1111_1111, (0b101_1110 << 1) | /* padding */ 0b1]),
        (143, vec![0b1111_1111, 0b1111_1111, (0b101_1111 << 1) | /* padding */ 0b1]),
        (147, vec![0b1111_1111, 0b1111_1111, (0b110_0000 << 1) | /* padding */ 0b1]),
        (149, vec![0b1111_1111, 0b1111_1111, (0b110_0001 << 1) | /* padding */ 0b1]),
        (150, vec![0b1111_1111, 0b1111_1111, (0b110_0010 << 1) | /* padding */ 0b1]),
        (151, vec![0b1111_1111, 0b1111_1111, (0b110_0011 << 1) | /* padding */ 0b1]),
        (152, vec![0b1111_1111, 0b1111_1111, (0b110_0100 << 1) | /* padding */ 0b1]),
        (155, vec![0b1111_1111, 0b1111_1111, (0b110_0101 << 1) | /* padding */ 0b1]),
        (157, vec![0b1111_1111, 0b1111_1111, (0b110_0110 << 1) | /* padding */ 0b1]),
        (158, vec![0b1111_1111, 0b1111_1111, (0b110_0111 << 1) | /* padding */ 0b1]),
        (165, vec![0b1111_1111, 0b1111_1111, (0b110_1000 << 1) | /* padding */ 0b1]),
        (166, vec![0b1111_1111, 0b1111_1111, (0b110_1001 << 1) | /* padding */ 0b1]),
        (168, vec![0b1111_1111, 0b1111_1111, (0b110_1010 << 1) | /* padding */ 0b1]),
        (174, vec![0b1111_1111, 0b1111_1111, (0b110_1011 << 1) | /* padding */ 0b1]),
        (175, vec![0b1111_1111, 0b1111_1111, (0b110_1100 << 1) | /* padding */ 0b1]),
        (180, vec![0b1111_1111, 0b1111_1111, (0b110_1101 << 1) | /* padding */ 0b1]),
        (182, vec![0b1111_1111, 0b1111_1111, (0b110_1110 << 1) | /* padding */ 0b1]),
        (183, vec![0b1111_1111, 0b1111_1111, (0b110_1111 << 1) | /* padding */ 0b1]),
        (188, vec![0b1111_1111, 0b1111_1111, (0b111_0000 << 1) | /* padding */ 0b1]),
        (191, vec![0b1111_1111, 0b1111_1111, (0b111_0001 << 1) | /* padding */ 0b1]),
        (197, vec![0b1111_1111, 0b1111_1111, (0b111_0010 << 1) | /* padding */ 0b1]),
        (231, vec![0b1111_1111, 0b1111_1111, (0b111_0011 << 1) | /* padding */ 0b1]),
        (239, vec![0b1111_1111, 0b1111_1111, (0b111_0100 << 1) | /* padding */ 0b1]),
        (9, vec![0b1111_1111, 0b1111_1111, 0b1110_1010]),
        (142, vec![0b1111_1111, 0b1111_1111, 0b1110_1011]),
        (144, vec![0b1111_1111, 0b1111_1111, 0b1110_1100]),
        (145, vec![0b1111_1111, 0b1111_1111, 0b1110_1101]),
        (148, vec![0b1111_1111, 0b1111_1111, 0b1110_1110]),
        (159, vec![0b1111_1111, 0b1111_1111, 0b1110_1111]),
        (171, vec![0b1111_1111, 0b1111_1111, 0b1111_0000]),
        (206, vec![0b1111_1111, 0b1111_1111, 0b1111_0001]),
        (215, vec![0b1111_1111, 0b1111_1111, 0b1111_0010]),
        (225, vec![0b1111_1111, 0b1111_1111, 0b1111_0011]),
        (236, vec![0b1111_1111, 0b1111_1111, 0b1111_0100]),
        (237, vec![0b1111_1111, 0b1111_1111, 0b1111_0101]),
        (199, vec![0b1111_1111, 0b1111_1111, 0b1111_0110, (0b0 << 7) | /* padding */ 0b111_1111]),
        (207, vec![0b1111_1111, 0b1111_1111, 0b1111_0110, (0b1 << 7) | /* padding */ 0b111_1111]),
        (234, vec![0b1111_1111, 0b1111_1111, 0b1111_0111, (0b0 << 7) | /* padding */ 0b111_1111]),
        (235, vec![0b1111_1111, 0b1111_1111, 0b1111_0111, (0b1 << 7) | /* padding */ 0b111_1111]),
        (192, vec![0b1111_1111, 0b1111_1111, 0b1111_1000, (0b00 << 6) | /* padding */ 0b11_1111]),
        (193, vec![0b1111_1111, 0b1111_1111, 0b1111_1000, (0b01 << 6) | /* padding */ 0b11_1111]),
        (200, vec![0b1111_1111, 0b1111_1111, 0b1111_1000, (0b10 << 6) | /* padding */ 0b11_1111]),
        (201, vec![0b1111_1111, 0b1111_1111, 0b1111_1000, (0b11 << 6) | /* padding */ 0b11_1111]),
        (202, vec![0b1111_1111, 0b1111_1111, 0b1111_1001, (0b00 << 6) | /* padding */ 0b11_1111]),
        (205, vec![0b1111_1111, 0b1111_1111, 0b1111_1001, (0b01 << 6) | /* padding */ 0b11_1111]),
        (210, vec![0b1111_1111, 0b1111_1111, 0b1111_1001, (0b10 << 6) | /* padding */ 0b11_1111]),
        (213, vec![0b1111_1111, 0b1111_1111, 0b1111_1001, (0b11 << 6) | /* padding */ 0b11_1111]),
        (218, vec![0b1111_1111, 0b1111_1111, 0b1111_1010, (0b00 << 6) | /* padding */ 0b11_1111]),
        (219, vec![0b1111_1111, 0b1111_1111, 0b1111_1010, (0b01 << 6) | /* padding */ 0b11_1111]),
        (238, vec![0b1111_1111, 0b1111_1111, 0b1111_1010, (0b10 << 6) | /* padding */ 0b11_1111]),
        (240, vec![0b1111_1111, 0b1111_1111, 0b1111_1010, (0b11 << 6) | /* padding */ 0b11_1111]),
        (242, vec![0b1111_1111, 0b1111_1111, 0b1111_1011, (0b00 << 6) | /* padding */ 0b11_1111]),
        (243, vec![0b1111_1111, 0b1111_1111, 0b1111_1011, (0b01 << 6) | /* padding */ 0b11_1111]),
        (255, vec![0b1111_1111, 0b1111_1111, 0b1111_1011, (0b10 << 6) | /* padding */ 0b11_1111]),
        (203, vec![0b1111_1111, 0b1111_1111, 0b1111_1011, (0b110 << 5) | /* padding */ 0b11111]),
        (204, vec![0b1111_1111, 0b1111_1111, 0b1111_1011, (0b111 << 5) | /* padding */ 0b11111]),
        (211, vec![0b1111_1111, 0b1111_1111, 0b1111_1100, (0b000 << 5) | /* padding */ 0b11111]),
        (212, vec![0b1111_1111, 0b1111_1111, 0b1111_1100, (0b001 << 5) | /* padding */ 0b11111]),
        (214, vec![0b1111_1111, 0b1111_1111, 0b1111_1100, (0b010 << 5) | /* padding */ 0b11111]),
        (221, vec![0b1111_1111, 0b1111_1111, 0b1111_1100, (0b011 << 5) | /* padding */ 0b11111]),
        (222, vec![0b1111_1111, 0b1111_1111, 0b1111_1100, (0b100 << 5) | /* padding */ 0b11111]),
        (223, vec![0b1111_1111, 0b1111_1111, 0b1111_1100, (0b101 << 5) | /* padding */ 0b11111]),
        (241, vec![0b1111_1111, 0b1111_1111, 0b1111_1100, (0b110 << 5) | /* padding */ 0b11111]),
        (244, vec![0b1111_1111, 0b1111_1111, 0b1111_1100, (0b111 << 5) | /* padding */ 0b11111]),
        (245, vec![0b1111_1111, 0b1111_1111, 0b1111_1101, (0b000 << 5) | /* padding */ 0b11111]),
        (246, vec![0b1111_1111, 0b1111_1111, 0b1111_1101, (0b001 << 5) | /* padding */ 0b11111]),
        (247, vec![0b1111_1111, 0b1111_1111, 0b1111_1101, (0b010 << 5) | /* padding */ 0b11111]),
        (248, vec![0b1111_1111, 0b1111_1111, 0b1111_1101, (0b011 << 5) | /* padding */ 0b11111]),
        (250, vec![0b1111_1111, 0b1111_1111, 0b1111_1101, (0b100 << 5) | /* padding */ 0b11111]),
        (251, vec![0b1111_1111, 0b1111_1111, 0b1111_1101, (0b101 << 5) | /* padding */ 0b11111]),
        (252, vec![0b1111_1111, 0b1111_1111, 0b1111_1101, (0b110 << 5) | /* padding */ 0b11111]),
        (253, vec![0b1111_1111, 0b1111_1111, 0b1111_1101, (0b111 << 5) | /* padding */ 0b11111]),
        (254, vec![0b1111_1111, 0b1111_1111, 0b1111_1110, (0b000 << 5) | /* padding */ 0b11111]),
        (2, vec![0b1111_1111, 0b1111_1111, 0b1111_1110, (0b0010 << 4) | /* padding */ 0b1111]),
        (3, vec![0b1111_1111, 0b1111_1111, 0b1111_1110, (0b0011 << 4) | /* padding */ 0b1111]),
        (4, vec![0b1111_1111, 0b1111_1111, 0b1111_1110, (0b0100 << 4) | /* padding */ 0b1111]),
        (5, vec![0b1111_1111, 0b1111_1111, 0b1111_1110, (0b0101 << 4) | /* padding */ 0b1111]),
        (6, vec![0b1111_1111, 0b1111_1111, 0b1111_1110, (0b0110 << 4) | /* padding */ 0b1111]),
        (7, vec![0b1111_1111, 0b1111_1111, 0b1111_1110, (0b0111 << 4) | /* padding */ 0b1111]),
        (8, vec![0b1111_1111, 0b1111_1111, 0b1111_1110, (0b1000 << 4) | /* padding */ 0b1111]),
        (11, vec![0b1111_1111, 0b1111_1111, 0b1111_1110, (0b1001 << 4) | /* padding */ 0b1111]),
        (12, vec![0b1111_1111, 0b1111_1111, 0b1111_1110, (0b1010 << 4) | /* padding */ 0b1111]),
        (14, vec![0b1111_1111, 0b1111_1111, 0b1111_1110, (0b1011 << 4) | /* padding */ 0b1111]),
        (15, vec![0b1111_1111, 0b1111_1111, 0b1111_1110, (0b1100 << 4) | /* padding */ 0b1111]),
        (16, vec![0b1111_1111, 0b1111_1111, 0b1111_1110, (0b1101 << 4) | /* padding */ 0b1111]),
        (17, vec![0b1111_1111, 0b1111_1111, 0b1111_1110, (0b1110 << 4) | /* padding */ 0b1111]),
        (18, vec![0b1111_1111, 0b1111_1111, 0b1111_1110, (0b1111 << 4) | /* padding */ 0b1111]),
        (19, vec![0b1111_1111, 0b1111_1111, 0b1111_1111, (0b0000 << 4) | /* padding */ 0b1111]),
        (20, vec![0b1111_1111, 0b1111_1111, 0b1111_1111, (0b0001 << 4) | /* padding */ 0b1111]),
        (21, vec![0b1111_1111, 0b1111_1111, 0b1111_1111, (0b0010 << 4) | /* padding */ 0b1111]),
        (23, vec![0b1111_1111, 0b1111_1111, 0b1111_1111, (0b0011 << 4) | /* padding */ 0b1111]),
        (24, vec![0b1111_1111, 0b1111_1111, 0b1111_1111, (0b0100 << 4) | /* padding */ 0b1111]),
        (25, vec![0b1111_1111, 0b1111_1111, 0b1111_1111, (0b0101 << 4) | /* padding */ 0b1111]),
        (26, vec![0b1111_1111, 0b1111_1111, 0b1111_1111, (0b0110 << 4) | /* padding */ 0b1111]),
        (27, vec![0b1111_1111, 0b1111_1111, 0b1111_1111, (0b0111 << 4) | /* padding */ 0b1111]),
        (28, vec![0b1111_1111, 0b1111_1111, 0b1111_1111, (0b1000 << 4) | /* padding */ 0b1111]),
        (29, vec![0b1111_1111, 0b1111_1111, 0b1111_1111, (0b1001 << 4) | /* padding */ 0b1111]),
        (30, vec![0b1111_1111, 0b1111_1111, 0b1111_1111, (0b1010 << 4) | /* padding */ 0b1111]),
        (31, vec![0b1111_1111, 0b1111_1111, 0b1111_1111, (0b1011 << 4) | /* padding */ 0b1111]),
        (127, vec![0b1111_1111, 0b1111_1111, 0b1111_1111, (0b1100 << 4) | /* padding */ 0b1111]),
        (220, vec![0b1111_1111, 0b1111_1111, 0b1111_1111, (0b1101 << 4) | /* padding */ 0b1111]),
        (249, vec![0b1111_1111, 0b1111_1111, 0b1111_1111, (0b1110 << 4) | /* padding */ 0b1111]),
        (10, vec![0b1111_1111, 0b1111_1111, 0b1111_1111, (0b11_1100 << 2) | /* padding */ 0b11]),
        (13, vec![0b1111_1111, 0b1111_1111, 0b1111_1111, (0b11_1101 << 2) | /* padding */ 0b11]),
        (22, vec![0b1111_1111, 0b1111_1111, 0b1111_1111, (0b11_1110 << 2) | /* padding */ 0b11]),
    ];
    for (code, bytes) in codes {
        let res: Result<Vec<u8>, Error> = bytes.hpack_decode().collect();
        assert_eq!(res, Ok(vec![code]), "fail to decode {}", code);
    }
}

#[test]
fn exact_byte_code_has_no_padding() {
    let encoded = vec![0b1111_1000];
    let mut decoded = encoded.hpack_decode();

    assert_eq!(decoded.next(), Some(Ok(b'&')));
    assert_eq!(decoded.symbol_end(), 8);
    assert_eq!(decoded.next(), None);
}

#[test]
fn rejects_invalid_huffman_terminators() {
    let invalid_padding: Result<Vec<u8>, Error> = vec![0b0001_1010u8].hpack_decode().collect();
    assert_eq!(invalid_padding, Err(Error::InvalidPadding(3)));

    let overlong_padding: Result<Vec<u8>, Error> =
        vec![0b1111_1000, 0b1111_1111].hpack_decode().collect();
    assert_eq!(overlong_padding, Err(Error::InvalidPadding(8)));

    let eos: Result<Vec<u8>, Error> = vec![0xff, 0xff, 0xff, 0xffu8].hpack_decode().collect();
    assert_eq!(eos, Err(Error::Eos));

    let eos_followed_by_data: Result<Vec<u8>, Error> =
        vec![0xff, 0xff, 0xff, 0xfc].hpack_decode().collect();
    assert_eq!(eos_followed_by_data, Err(Error::Eos));

    let encoded = vec![0xff, 0xff, 0xff, 0xfc];
    let mut decoded = encoded.hpack_decode();
    assert_eq!(decoded.next(), Some(Err(Error::Eos)));
    assert_eq!(decoded.next(), None);
}

#[test]
fn accepts_zero_through_seven_padding_bits() {
    // These symbols have code lengths of 8, 7, 6, 5, 12, 11, 10,
    // and 25 bits, respectively.
    for symbol in [b'&', b'B', b' ', b'a', b'#', b'\'', b'!', 199] {
        let encoded = vec![symbol].hpack_encode().unwrap();
        let decoded: Result<Vec<u8>, Error> = encoded.hpack_decode().collect();
        assert_eq!(decoded, Ok(vec![symbol]));
    }
}

#[test]
fn every_accepted_short_input_is_canonical() {
    for value in 0u16..=u16::MAX {
        let bytes = value.to_be_bytes();
        for encoded in [&bytes[..1], &bytes[..]] {
            let decoded: Result<Vec<u8>, Error> = encoded.to_vec().hpack_decode().collect();
            if let Ok(decoded) = decoded {
                assert_eq!(decoded.hpack_encode().unwrap(), encoded);
            }
        }
    }
}

#[test]
fn fast_decoder_matches_recursive_oracle_for_short_inputs() {
    assert_eq!(
        <[u8] as HpackStringDecode>::hpack_decode(&[]).collect(),
        oracle_decode(&codes(), &[])
    );

    let codes = codes();
    for value in 0u16..=u16::MAX {
        let bytes = value.to_be_bytes();
        for encoded in [&bytes[..1], &bytes[..]] {
            let decoded: Result<Vec<u8>, Error> = encoded.hpack_decode().collect();
            assert_eq!(decoded, oracle_decode(&codes, encoded), "input {encoded:02x?}");
        }
    }
}

/**
 * https://tools.ietf.org/html/rfc7541
 * Appendix B.  Huffman Code
 */
#[test]
fn test_decode_all_code_joined() {
    let bytes = vec![
        // 0     |11111111|11000
        0b1111_1111,
        (0b11000 << 3)
            // 1     |11111111|11111111|1011000
            + 0b111,
        0b1111_1111,
        0b1111_1101,
        (0b1000 << 4)
            // 2     |11111111|11111111|11111110|0010
            + 0b1111,
        0b1111_1111,
        0b1111_1111,
        0b1110_0010,
        // 3     |11111111|11111111|11111110|0011
        0b1111_1111,
        0b1111_1111,
        0b1111_1110,
        (0b0011 << 4)
            // 4     |11111111|11111111|11111110|0100
            + 0b1111,
        0b1111_1111,
        0b1111_1111,
        0b1110_0100,
        // 5     |11111111|11111111|11111110|0101
        0b1111_1111,
        0b1111_1111,
        0b1111_1110,
        (0b0101 << 4)
            // 6     |11111111|11111111|11111110|0110
            + 0b1111,
        0b1111_1111,
        0b1111_1111,
        0b1110_0110,
        // 7     |11111111|11111111|11111110|0111
        0b1111_1111,
        0b1111_1111,
        0b1111_1110,
        (0b0111 << 4)
            // 8     |11111111|11111111|11111110|1000
            + 0b1111,
        0b1111_1111,
        0b1111_1111,
        0b1110_1000,
        // 9     |11111111|11111111|11101010
        0b1111_1111,
        0b1111_1111,
        0b1110_1010,
        // 10     |11111111|11111111|11111111|111100
        0b1111_1111,
        0b1111_1111,
        0b1111_1111,
        (0b11_1100 << 2)
            // 11     |11111111|11111111|11111110|1001
            + 0b11,
        0b1111_1111,
        0b1111_1111,
        0b1111_1010,
        (0b01 << 6)
            // 12     |11111111|11111111|11111110|1010
            + 0b11_1111,
        0b1111_1111,
        0b1111_1111,
        (0b10_1010 << 2)
            // 13     |11111111|11111111|11111111|111101
            + 0b11,
        0b1111_1111,
        0b1111_1111,
        0b1111_1111,
        (0b1101 << 4)
            // 14     |11111111|11111111|11111110|1011
            + 0b1111,
        0b1111_1111,
        0b1111_1111,
        0b1110_1011,
        // 15     |11111111|11111111|11111110|1100
        0b1111_1111,
        0b1111_1111,
        0b1111_1110,
        (0b1100 << 4)
            // 16     |11111111|11111111|11111110|1101
            + 0b1111,
        0b1111_1111,
        0b1111_1111,
        0b1110_1101,
        // 17     |11111111|11111111|11111110|1110
        0b1111_1111,
        0b1111_1111,
        0b1111_1110,
        (0b1110 << 4)
            // 18     |11111111|11111111|11111110|1111
            + 0b1111,
        0b1111_1111,
        0b1111_1111,
        0b1110_1111,
        // 19     |11111111|11111111|11111111|0000
        0b1111_1111,
        0b1111_1111,
        0b1111_1111,
        (0b0000 << 4)
            // 20     |11111111|11111111|11111111|0001
            + 0b1111,
        0b1111_1111,
        0b1111_1111,
        0b1111_0001,
        // 21     |11111111|11111111|11111111|0010
        0b1111_1111,
        0b1111_1111,
        0b1111_1111,
        (0b0010 << 4)
            // 22     |11111111|11111111|11111111|111110
            + 0b1111,
        0b1111_1111,
        0b1111_1111,
        0b1111_1111,
        (0b10 << 6)
            // 23     |11111111|11111111|11111111|0011
            + 0b11_1111,
        0b1111_1111,
        0b1111_1111,
        (0b11_0011 << 2)
            // 24     |11111111|11111111|11111111|0100
            + 0b11,
        0b1111_1111,
        0b1111_1111,
        0b1111_1101,
        (0b00 << 6)
            // 25     |11111111|11111111|11111111|0101
            + 0b11_1111,
        0b1111_1111,
        0b1111_1111,
        (0b11_0101 << 2)
            // 26     |11111111|11111111|11111111|0110
            + 0b11,
        0b1111_1111,
        0b1111_1111,
        0b1111_1101,
        (0b10 << 6)
            // 27     |11111111|11111111|11111111|0111
            + 0b11_1111,
        0b1111_1111,
        0b1111_1111,
        (0b11_0111 << 2)
            // 28     |11111111|11111111|11111111|1000
            + 0b11,
        0b1111_1111,
        0b1111_1111,
        0b1111_1110,
        (0b00 << 6)
            // 29     |11111111|11111111|11111111|1001
            + 0b11_1111,
        0b1111_1111,
        0b1111_1111,
        (0b11_1001 << 2)
            // 30     |11111111|11111111|11111111|1010
            + 0b11,
        0b1111_1111,
        0b1111_1111,
        0b1111_1110,
        (0b10 << 6)
            // 31     |11111111|11111111|11111111|1011
            + 0b11_1111,
        0b1111_1111,
        0b1111_1111,
        (0b11_1011 << 2)
            // 32     |010100
            + 0b01,
        (0b0100 << 4)
            // 33 -!- |11111110|00
            + 0b1111,
        (0b11_1000 << 2)
            // 34 -;- |11111110|01
            + 0b11,
        0b1111_1001,
        // 35 -#- |11111111|1010
        0b1111_1111,
        (0b1010 << 4)
            // 36 -$- |11111111|11001
            + 0b1111,
        0b1111_1100,
        (0b1 << 7)
            // 37 -%- |010101
            + (0b01_0101 << 1)
            // 38 -&- |11111000
            + 0b1,
        (0b111_1000 << 1)
            // 39 -'- |11111111|010
            + 0b1,
        0b1111_1110,
        (0b10 << 6)
            // 40 -(- |11111110|10
            + 0b11_1111,
        (0b1010 << 4)
            // 41 -)- |11111110|11
            + 0b1111,
        (0b11_1011 << 2)
            // 42 -*- |11111001
            + 0b11,
        (0b11_1001 << 2)
            // 43 -+- |11111111|011
            + 0b11,
        0b1111_1101,
        (0b1 << 7)
            // 44 -,- |11111010
            + 0b111_1101,
        (0b0 << 7)
            // 45 --- |010110
            + (0b01_0110 << 1)
            // 46 -.- |010111
            + 0b0,
        (0b10111 << 3)
            // 47 -/- |011000
            + 0b011,
        (0b000 << 5)
            // 48 -0- |00000
            + 0b00000,
        // 49 -1- |00001
        (0b00001 << 3)
            // 50 -2- |00010
            + 0b000,
        (0b10 << 6)
            // 51 -3- |011001
            + 0b01_1001,
        // 52 -4- |011010
        (0b01_1010 << 2)
            // 53 -5- |011011
            + 0b01,
        (0b1011 << 4)
            // 54 -6- |011100
            + 0b0111,
        (0b00 << 6)
            // 55 -7- |011101
            + 0b01_1101,
        // 56 -8- |011110
        (0b01_1110 << 2)
            // 57 -9- |011111
            + 0b01,
        (0b1111 << 4)
            // 58 -:- |1011100
            + 0b1011,
        (0b100 << 5)
            // 59     |11111011
            + 0b11111,
        (0b011 << 5)
            // 60 -<- |11111111|1111100
            + 0b11111,
        0b1111_1111,
        (0b00 << 6)
            // 61 -=- |100000
            + 0b10_0000,
        // 62 ->- |11111111|1011
        0b1111_1111,
        (0b1011 << 4)
            // 63 -?- |11111111|00
            + 0b1111,
        (0b11_1100 << 2)
            // 64 -@- |11111111|11010
            + 0b11,
        0b1111_1111,
        (0b010 << 5)
            // 65 -A- |100001
            + 0b10000,
        (0b1 << 7)
            // 66 -B- |1011101
            + 0b101_1101,
        // 67 -C- |1011110
        (0b101_1110 << 1)
            // 68 -D- |1011111
            + 0b1,
        (0b01_1111 << 2)
            // 69 -E- |1100000
            + 0b11,
        (0b00000 << 3)
            // 70 -F- |1100001
            + 0b110,
        (0b0001 << 4)
            // 71 -G- |1100010
            + 0b1100,
        (0b010 << 5)
            // 72 -H- |1100011
            + 0b11000,
        (0b11 << 6)
            // 73 -I- |1100100
            + 0b11_0010,
        (0b0 << 7)
            // 74 -J- |1100101
            + 0b110_0101,
        // 75 -K- |1100110
        (0b110_0110 << 1)
            // 76 -L- |1100111
            + 0b1,
        (0b10_0111 << 2)
            // 77 -M- |1101000
            + 0b11,
        (0b01000 << 3)
            // 78 -N- |1101001
            + 0b110,
        (0b1001 << 4)
            // 79 -O- |1101010
            + 0b1101,
        (0b010 << 5)
            // 80 -P- |1101011
            + 0b11010,
        (0b11 << 6)
            // 81 -Q- |1101100
            + 0b11_0110,
        (0b0 << 7)
            // 82 -R- |1101101
            + 0b110_1101,
        // 83 -S- |1101110
        (0b110_1110 << 1)
            // 84 -T- |1101111
            + 0b1,
        (0b10_1111 << 2)
            // 85 -U- |1110000
            + 0b11,
        (0b10000 << 3)
            // 86 -V- |1110001
            + 0b111,
        (0b0001 << 4)
            // 87 -W- |1110010
            + 0b1110,
        (0b010 << 5)
            // 88 -X- |11111100
            + 0b11111,
        (0b100 << 5)
            // 89 -Y- |1110011
            + 0b11100,
        (0b11 << 6)
            // 90 -Z- |11111101
            + 0b11_1111,
        (0b01 << 6)
            // 91 -[- |11111111|11011
            + 0b11_1111,
        (0b111_1011 << 1)
            // 92 -\- |11111111|11111110|000
            + 0b1,
        0b1111_1111,
        0b1111_1100,
        (0b00 << 6)
            // 93 -]- |11111111|11100
            + 0b11_1111,
        (0b111_1100 << 1)
            // 94 -^- |11111111|111100
            + 0b1,
        0b1111_1111,
        (0b11100 << 3)
            // 95 -_- |100010
            + 0b100,
        (0b010 << 5)
            // 96 -`- |11111111|1111101
            + 0b11111,
        0b1111_1111,
        (0b01 << 6)
            // 97 -a- |00011
            + (0b00011 << 1)
            // 98 -b- |100011
            + 0b1,
        (0b00011 << 3)
            // 99 -c- |00100
            + 0b001,
        (0b00 << 6)
            // 100 -d- |100100
            + 0b10_0100,
        // 101 -e- |00101
        (0b00101 << 3)
            // 102 -f- |100101
            + 0b100,
        (0b101 << 5)
            // 103 -g- |100110
            + 0b10011,
        (0b0 << 7)
            // 104 -h- |100111
            + (0b10_0111 << 1)
            // 105 -i- |00110
            + 0b0,
        (0b0110 << 4)
            // 106 -j- |1110100
            + 0b1110,
        (0b100 << 5)
            // 107 -k- |1110101
            + 0b11101,
        (0b01 << 6)
            // 108 -l- |101000
            + 0b10_1000,
        // 109 -m- |101001
        (0b10_1001 << 2)
            // 110 -n- |101010
            + 0b10,
        (0b1010 << 4)
            // 111 -o- |00111
            + 0b0011,
        (0b1 << 7)
            // 112 -p- |101011
            + (0b10_1011 << 1)
            // 113 -q- |1110110
            + 0b1,
        (0b11_0110 << 2)
            // 114 -r- |101100
            + 0b10,
        (0b1100 << 4)
            // 115 -s- |01000
            + 0b0100,
        (0b0 << 7)
            // 116 -t- |01001
            + (0b01001 << 2)
            // 117 -u- |101101
            + 0b10,
        (0b1101 << 4)
            // 118 -v- |1110111
            + 0b1110,
        (0b111 << 5)
            // 119 -w- |1111000
            + 0b11110,
        (0b00 << 6)
            // 120 -x- |1111001
            + 0b11_1100,
        (0b1 << 7)
            // 121 -y- |1111010
            + 0b111_1010,
        // 122 -z- |1111011
        (0b111_1011 << 1)
            // 123 -{- |11111111|1111110
            + 0b1,
        0b1111_1111,
        (0b11_1110 << 2)
            // 124 -|- |11111111|100
            + 0b11,
        0b1111_1110,
        (0b0 << 7)
            // 125 -}- |11111111|111101
            + 0b111_1111,
        (0b111_1101 << 1)
            // 126 -~- |11111111|11101
            + 0b1,
        0b1111_1111,
        (0b1101 << 4)
            // 127     |11111111|11111111|11111111|1100
            + 0b1111,
        0b1111_1111,
        0b1111_1111,
        0b1111_1100,
        // 128     |11111111|11111110|0110
        0b1111_1111,
        0b1111_1110,
        (0b0110 << 4)
            // 129     |11111111|11111111|010010
            + 0b1111,
        0b1111_1111,
        0b1111_0100,
        (0b10 << 6)
            // 130     |11111111|11111110|0111
            + 0b11_1111,
        0b1111_1111,
        (0b10_0111 << 2)
            // 131     |11111111|11111110|1000
            + 0b11,
        0b1111_1111,
        0b1111_1010,
        (0b00 << 6)
            // 132     |11111111|11111111|010011
            + 0b11_1111,
        0b1111_1111,
        0b1101_0011,
        // 133     |11111111|11111111|010100
        0b1111_1111,
        0b1111_1111,
        (0b01_0100 << 2)
            // 134     |11111111|11111111|010101
            + 0b11,
        0b1111_1111,
        0b1111_1101,
        (0b0101 << 4)
            // 135     |11111111|11111111|1011001
            + 0b1111,
        0b1111_1111,
        0b1111_1011,
        (0b001 << 5)
            // 136     |11111111|11111111|010110
            + 0b11111,
        0b1111_1111,
        0b1110_1011,
        (0b0 << 7)
            // 137     |11111111|11111111|1011010
            + 0b111_1111,
        0b1111_1111,
        0b1101_1010,
        // 138     |11111111|11111111|1011011
        0b1111_1111,
        0b1111_1111,
        (0b101_1011 << 1)
            // 139     |11111111|11111111|1011100
            + 0b1,
        0b1111_1111,
        0b1111_1111,
        (0b01_1100 << 2)
            // 140     |11111111|11111111|1011101
            + 0b11,
        0b1111_1111,
        0b1111_1110,
        (0b11101 << 3)
            // 141     |11111111|11111111|1011110
            + 0b111,
        0b1111_1111,
        0b1111_1101,
        (0b1110 << 4)
            // 142     |11111111|11111111|11101011
            + 0b1111,
        0b1111_1111,
        0b1111_1110,
        (0b1011 << 4)
            // 143     |11111111|11111111|1011111
            + 0b1111,
        0b1111_1111,
        0b1111_1011,
        (0b111 << 5)
            // 144     |11111111|11111111|11101100
            + 0b11111,
        0b1111_1111,
        0b1111_1101,
        (0b100 << 5)
            // 145     |11111111|11111111|11101101
            + 0b11111,
        0b1111_1111,
        0b1111_1101,
        (0b101 << 5)
            // 146     |11111111|11111111|010111
            + 0b11111,
        0b1111_1111,
        0b1110_1011,
        (0b1 << 7)
            // 147     |11111111|11111111|1100000
            + 0b111_1111,
        0b1111_1111,
        0b1110_0000,
        // 148     |11111111|11111111|11101110
        0b1111_1111,
        0b1111_1111,
        0b1110_1110,
        // 149     |11111111|11111111|1100001
        0b1111_1111,
        0b1111_1111,
        (0b110_0001 << 1)
            // 150     |11111111|11111111|1100010
            + 0b1,
        0b1111_1111,
        0b1111_1111,
        (0b10_0010 << 2)
            // 151     |11111111|11111111|1100011
            + 0b11,
        0b1111_1111,
        0b1111_1111,
        (0b00011 << 3)
            // 152     |11111111|11111111|1100100
            + 0b111,
        0b1111_1111,
        0b1111_1110,
        (0b0100 << 4)
            // 153     |11111111|11111110|11100
            + 0b1111,
        0b1111_1111,
        0b1110_1110,
        (0b0 << 7)
            // 154     |11111111|11111111|011000
            + 0b111_1111,
        0b1111_1111,
        (0b101_1000 << 1)
            // 155     |11111111|11111111|1100101
            + 0b1,
        0b1111_1111,
        0b1111_1111,
        (0b10_0101 << 2)
            // 156     |11111111|11111111|011001
            + 0b11,
        0b1111_1111,
        0b1111_1101,
        (0b1001 << 4)
            // 157     |11111111|11111111|1100110
            + 0b1111,
        0b1111_1111,
        0b1111_1100,
        (0b110 << 5)
            // 158     |11111111|11111111|1100111
            + 0b11111,
        0b1111_1111,
        0b1111_1001,
        (0b11 << 6)
            // 159     |11111111|11111111|11101111
            + 0b11_1111,
        0b1111_1111,
        0b1111_1011,
        (0b11 << 6)
            // 160     |11111111|11111111|011010
            + 0b11_1111,
        0b1111_1111,
        0b1101_1010,
        // 161     |11111111|11111110|11101
        0b1111_1111,
        0b1111_1110,
        (0b11101 << 3)
            // 162     |11111111|11111110|1001
            + 0b111,
        0b1111_1111,
        0b1111_0100,
        (0b1 << 7)
            // 163     |11111111|11111111|011011
            + 0b111_1111,
        0b1111_1111,
        (0b101_1011 << 1)
            // 164     |11111111|11111111|011100
            + 0b1,
        0b1111_1111,
        0b1111_1110,
        (0b11100 << 3)
            // 165     |11111111|11111111|1101000
            + 0b111,
        0b1111_1111,
        0b1111_1110,
        (0b1000 << 4)
            // 166     |11111111|11111111|1101001
            + 0b1111,
        0b1111_1111,
        0b1111_1101,
        (0b001 << 5)
            // 167     |11111111|11111110|11110
            + 0b11111,
        0b1111_1111,
        0b1101_1110,
        // 168     |11111111|11111111|1101010
        0b1111_1111,
        0b1111_1111,
        (0b110_1010 << 1)
            // 169     |11111111|11111111|011101
            + 0b1,
        0b1111_1111,
        0b1111_1110,
        (0b11101 << 3)
            // 170     |11111111|11111111|011110
            + 0b111,
        0b1111_1111,
        0b1111_1011,
        (0b110 << 5)
            // 171     |11111111|11111111|11110000
            + 0b11111,
        0b1111_1111,
        0b1111_1110,
        (0b000 << 5)
            // 172     |11111111|11111110|11111
            + 0b11111,
        0b1111_1111,
        0b1101_1111,
        // 173     |11111111|11111111|011111
        0b1111_1111,
        0b1111_1111,
        (0b01_1111 << 2)
            // 174     |11111111|11111111|1101011
            + 0b11,
        0b1111_1111,
        0b1111_1111,
        (0b01011 << 3)
            // 175     |11111111|11111111|1101100
            + 0b111,
        0b1111_1111,
        0b1111_1110,
        (0b1100 << 4)
            // 176     |11111111|11111111|00000
            + 0b1111,
        0b1111_1111,
        0b1111_0000,
        (0b0 << 7)
            // 177     |11111111|11111111|00001
            + 0b111_1111,
        0b1111_1111,
        (0b10_0001 << 2)
            // 178     |11111111|11111111|100000
            + 0b11,
        0b1111_1111,
        0b1111_1110,
        (0b0000 << 4)
            // 179     |11111111|11111111|00010
            + 0b1111,
        0b1111_1111,
        0b1111_0001,
        (0b0 << 7)
            // 180     |11111111|11111111|1101101
            + 0b111_1111,
        0b1111_1111,
        0b1110_1101,
        // 181     |11111111|11111111|100001
        0b1111_1111,
        0b1111_1111,
        (0b10_0001 << 2)
            // 182     |11111111|11111111|1101110
            + 0b11,
        0b1111_1111,
        0b1111_1111,
        (0b01110 << 3)
            // 183     |11111111|11111111|1101111
            + 0b111,
        0b1111_1111,
        0b1111_1110,
        (0b1111 << 4)
            // 184     |11111111|11111110|1010
            + 0b1111,
        0b1111_1111,
        0b1110_1010,
        // 185     |11111111|11111111|100010
        0b1111_1111,
        0b1111_1111,
        (0b10_0010 << 2)
            // 186     |11111111|11111111|100011
            + 0b11,
        0b1111_1111,
        0b1111_1110,
        (0b0011 << 4)
            // 187     |11111111|11111111|100100
            + 0b1111,
        0b1111_1111,
        0b1111_1001,
        (0b00 << 6)
            // 188     |11111111|11111111|1110000
            + 0b11_1111,
        0b1111_1111,
        0b1111_1000,
        (0b0 << 7)
            // 189     |11111111|11111111|100101
            + 0b111_1111,
        0b1111_1111,
        (0b110_0101 << 1)
            // 190     |11111111|11111111|100110
            + 0b1,
        0b1111_1111,
        0b1111_1111,
        (0b00110 << 3)
            // 191     |11111111|11111111|1110001
            + 0b111,
        0b1111_1111,
        0b1111_1111,
        (0b0001 << 4)
            // 192     |11111111|11111111|11111000|00
            + 0b1111,
        0b1111_1111,
        0b1111_1111,
        (0b10_0000 << 2)
            // 193     |11111111|11111111|11111000|01
            + 0b11,
        0b1111_1111,
        0b1111_1111,
        0b1110_0001,
        // 194     |11111111|11111110|1011
        0b1111_1111,
        0b1111_1110,
        (0b1011 << 4)
            // 195     |11111111|11111110|001
            + 0b1111,
        0b1111_1111,
        (0b111_0001 << 1)
            // 196     |11111111|11111111|100111
            + 0b1,
        0b1111_1111,
        0b1111_1111,
        (0b00111 << 3)
            // 197     |11111111|11111111|1110010
            + 0b111,
        0b1111_1111,
        0b1111_1111,
        (0b0010 << 4)
            // 198     |11111111|11111111|101000
            + 0b1111,
        0b1111_1111,
        0b1111_1010,
        (0b00 << 6)
            // 199     |11111111|11111111|11110110|0
            + 0b11_1111,
        0b1111_1111,
        0b1111_1101,
        (0b100 << 5)
            // 200     |11111111|11111111|11111000|10
            + 0b11111,
        0b1111_1111,
        0b1111_1111,
        (0b00010 << 3)
            // 201     |11111111|11111111|11111000|11
            + 0b111,
        0b1111_1111,
        0b1111_1111,
        (0b110_0011 << 1)
            // 202     |11111111|11111111|11111001|00
            + 0b1,
        0b1111_1111,
        0b1111_1111,
        0b1111_0010,
        (0b0 << 7)
            // 203     |11111111|11111111|11111011|110
            + 0b111_1111,
        0b1111_1111,
        0b1111_1101,
        (0b1110 << 4)
            // 204     |11111111|11111111|11111011|111
            + 0b1111,
        0b1111_1111,
        0b1111_1111,
        (0b101_1111 << 1)
            // 205     |11111111|11111111|11111001|01
            + 0b1,
        0b1111_1111,
        0b1111_1111,
        0b1111_0010,
        (0b1 << 7)
            // 206     |11111111|11111111|11110001
            + 0b111_1111,
        0b1111_1111,
        0b1111_1000,
        (0b1 << 7)
            // 207     |11111111|11111111|11110110|1
            + 0b111_1111,
        0b1111_1111,
        0b1111_1011,
        (0b01 << 6)
            // 208     |11111111|11111110|010
            + 0b11_1111,
        0b1111_1111,
        (0b10010 << 3)
            // 209     |11111111|11111111|00011
            + 0b111,
        0b1111_1111,
        0b1111_1000,
        (0b11 << 6)
            // 210     |11111111|11111111|11111001|10
            + 0b11_1111,
        0b1111_1111,
        0b1111_1110,
        (0b0110 << 4)
            // 211     |11111111|11111111|11111100|000
            + 0b1111,
        0b1111_1111,
        0b1111_1111,
        (0b110_0000 << 1)
            // 212     |11111111|11111111|11111100|001
            + 0b1,
        0b1111_1111,
        0b1111_1111,
        0b1111_1000,
        (0b01 << 6)
            // 213     |11111111|11111111|11111001|11
            + 0b11_1111,
        0b1111_1111,
        0b1111_1110,
        (0b0111 << 4)
            // 214     |11111111|11111111|11111100|010
            + 0b1111,
        0b1111_1111,
        0b1111_1111,
        (0b110_0010 << 1)
            // 215     |11111111|11111111|11110010
            + 0b1,
        0b1111_1111,
        0b1111_1111,
        (0b111_0010 << 1)
            // 216     |11111111|11111111|00100
            + 0b1,
        0b1111_1111,
        0b1111_1110,
        (0b0100 << 4)
            // 217     |11111111|11111111|00101
            + 0b1111,
        0b1111_1111,
        0b1111_0010,
        (0b1 << 7)
            // 218     |11111111|11111111|11111010|00
            + 0b111_1111,
        0b1111_1111,
        0b1111_1101,
        (0b000 << 5)
            // 219     |11111111|11111111|11111010|01
            + 0b11111,
        0b1111_1111,
        0b1111_1111,
        (0b01001 << 3)
            // 220     |11111111|11111111|11111111|1101
            + 0b111,
        0b1111_1111,
        0b1111_1111,
        0b1111_1110,
        (0b1 << 7)
            // 221     |11111111|11111111|11111100|011
            + 0b111_1111,
        0b1111_1111,
        0b1111_1110,
        (0b0011 << 4)
            // 222     |11111111|11111111|11111100|100
            + 0b1111,
        0b1111_1111,
        0b1111_1111,
        (0b110_0100 << 1)
            // 223     |11111111|11111111|11111100|101
            + 0b1,
        0b1111_1111,
        0b1111_1111,
        0b1111_1001,
        (0b01 << 6)
            // 224     |11111111|11111110|1100
            + 0b11_1111,
        0b1111_1111,
        (0b10_1100 << 2)
            // 225     |11111111|11111111|11110011
            + 0b11,
        0b1111_1111,
        0b1111_1111,
        (0b11_0011 << 2)
            // 226     |11111111|11111110|1101
            + 0b11,
        0b1111_1111,
        0b1111_1011,
        (0b01 << 6)
            // 227     |11111111|11111111|00110
            + 0b11_1111,
        0b1111_1111,
        (0b110_0110 << 1)
            // 228     |11111111|11111111|101001
            + 0b1,
        0b1111_1111,
        0b1111_1111,
        (0b01001 << 3)
            // 229     |11111111|11111111|00111
            + 0b111,
        0b1111_1111,
        0b1111_1001,
        (0b11 << 6)
            // 230     |11111111|11111111|01000
            + 0b11_1111,
        0b1111_1111,
        (0b110_1000 << 1)
            // 231     |11111111|11111111|1110011
            + 0b1,
        0b1111_1111,
        0b1111_1111,
        (0b11_0011 << 2)
            // 232     |11111111|11111111|101010
            + 0b11,
        0b1111_1111,
        0b1111_1110,
        (0b1010 << 4)
            // 233     |11111111|11111111|101011
            + 0b1111,
        0b1111_1111,
        0b1111_1010,
        (0b11 << 6)
            // 234     |11111111|11111111|11110111|0
            + 0b11_1111,
        0b1111_1111,
        0b1111_1101,
        (0b110 << 5)
            // 235     |11111111|11111111|11110111|1
            + 0b11111,
        0b1111_1111,
        0b1111_1110,
        (0b1111 << 4)
            // 236     |11111111|11111111|11110100
            + 0b1111,
        0b1111_1111,
        0b1111_1111,
        (0b0100 << 4)
            // 237     |11111111|11111111|11110101
            + 0b1111,
        0b1111_1111,
        0b1111_1111,
        (0b0101 << 4)
            // 238     |11111111|11111111|11111010|10
            + 0b1111,
        0b1111_1111,
        0b1111_1111,
        (0b10_1010 << 2)
            // 239     |11111111|11111111|1110100
            + 0b11,
        0b1111_1111,
        0b1111_1111,
        (0b10100 << 3)
            // 240     |11111111|11111111|11111010|11
            + 0b111,
        0b1111_1111,
        0b1111_1111,
        (0b110_1011 << 1)
            // 241     |11111111|11111111|11111100|110
            + 0b1,
        0b1111_1111,
        0b1111_1111,
        0b1111_1001,
        (0b10 << 6)
            // 242     |11111111|11111111|11111011|00
            + 0b11_1111,
        0b1111_1111,
        0b1111_1110,
        (0b1100 << 4)
            // 243     |11111111|11111111|11111011|01
            + 0b1111,
        0b1111_1111,
        0b1111_1111,
        (0b10_1101 << 2)
            // 244     |11111111|11111111|11111100|111
            + 0b11,
        0b1111_1111,
        0b1111_1111,
        0b1111_0011,
        (0b1 << 7)
            // 245     |11111111|11111111|11111101|000
            + 0b111_1111,
        0b1111_1111,
        0b1111_1110,
        (0b1000 << 4)
            // 246     |11111111|11111111|11111101|001
            + 0b1111,
        0b1111_1111,
        0b1111_1111,
        (0b110_1001 << 1)
            // 247     |11111111|11111111|11111101|010
            + 0b1,
        0b1111_1111,
        0b1111_1111,
        0b1111_1010,
        (0b10 << 6)
            // 248     |11111111|11111111|11111101|011
            + 0b11_1111,
        0b1111_1111,
        0b1111_1111,
        (0b01011 << 3)
            // 249     |11111111|11111111|11111111|1110
            + 0b111,
        0b1111_1111,
        0b1111_1111,
        0b1111_1111,
        (0b0 << 7)
            // 250     |11111111|11111111|11111101|100
            + 0b111_1111,
        0b1111_1111,
        0b1111_1110,
        (0b1100 << 4)
            // 251     |11111111|11111111|11111101|101
            + 0b1111,
        0b1111_1111,
        0b1111_1111,
        (0b110_1101 << 1)
            // 252     |11111111|11111111|11111101|110
            + 0b1,
        0b1111_1111,
        0b1111_1111,
        0b1111_1011,
        (0b10 << 6)
            // 253     |11111111|11111111|11111101|111
            + 0b11_1111,
        0b1111_1111,
        0b1111_1111,
        (0b01111 << 3)
            // 254     |11111111|11111111|11111110|000
            + 0b111,
        0b1111_1111,
        0b1111_1111,
        0b1111_0000,
        // 255     |11111111|11111111|11111011|10
        0b1111_1111,
        0b1111_1111,
        0b1111_1011,
        (0b10 << 6)
            // pad symbol 255 to the next byte boundary
            + 0b11_1111,
    ];
    let expected = (0u8..=255).collect();
    let res: Result<Vec<u8>, Error> = bytes.hpack_decode().collect();
    assert_eq!(res, oracle_decode(&codes(), &bytes));
    assert_eq!(res, Ok(expected));
}
