use tagbox::bitpadded::BitPaddedInt;
use tagbox::error::TagError;
use tagbox::header::{determine_bpi, find_id3v2_header, scan_frames, ID3Flags, ID3Header};
use tagbox::unsynch::{decode_unsynchronisation, encode_unsynchronisation};

fn frame(id: &[u8; 4], size_field: [u8; 4], payload_len: usize, fill: u8) -> Vec<u8> {
    let mut out = Vec::new();
    out.extend_from_slice(id);
    out.extend_from_slice(&size_field);
    out.extend_from_slice(&[0, 0]);
    out.extend(std::iter::repeat(fill).take(payload_len));
    out
}

#[test]
fn decode_syncsafe_and_normal() {
    assert_eq!(BitPaddedInt::syncsafe(&[0, 0, 2, 1]), 257);
    assert_eq!(BitPaddedInt::normal(&[0, 0, 2, 1]), 513);
    assert_eq!(BitPaddedInt::decode(&[0x7f, 0x7f, 0x7f, 0x7f], 7), 0x0fff_ffff);
    assert_eq!(BitPaddedInt::decode(&[0xff, 0xff, 0xff, 0xff], 8), 0xffff_ffff);
    assert_eq!(BitPaddedInt::decode(&[], 7), 0);
}

#[test]
fn decode_masks_high_bits_without_rejecting() {
    assert_eq!(BitPaddedInt::syncsafe(&[0x80, 0x81]), 1);
    assert_eq!(BitPaddedInt::syncsafe(&[0xff, 0xff]), 0x3fff);
}

#[test]
fn decode_keeps_the_low_32_bits() {
    assert_eq!(BitPaddedInt::normal(&[1, 2, 3, 4, 5]), 0x0203_0405);
    assert_eq!(BitPaddedInt::syncsafe(&[0x7f, 0, 0, 0, 0]), 0xf000_0000);
}

#[test]
fn encode_pads_and_truncates() {
    assert_eq!(BitPaddedInt::encode(257, 4, 7), vec![0, 0, 2, 1]);
    assert_eq!(BitPaddedInt::encode(513, 4, 8), vec![0, 0, 2, 1]);
    assert_eq!(BitPaddedInt::encode(0x1234, 1, 8), vec![0x34]);
    assert_eq!(BitPaddedInt::encode(300, 1, 7), vec![44]);
    assert_eq!(BitPaddedInt::encode(5, 0, 7), Vec::<u8>::new());
    assert_eq!(BitPaddedInt::encode(1, 6, 8), vec![0, 0, 0, 0, 0, 1]);
}

#[test]
fn encode_then_decode_gives_the_value_back() {
    let values: [u32; 7] = [0, 1, 127, 128, 16383, 0x0fff_ffff, 200];
    for v in values {
        assert_eq!(BitPaddedInt::decode(&BitPaddedInt::encode(v, 4, 7), 7), v);
        assert_eq!(BitPaddedInt::decode(&BitPaddedInt::encode(v, 4, 8), 8), v);
    }
    assert_eq!(BitPaddedInt::decode(&BitPaddedInt::encode(0xffff_ffff, 4, 8), 8), 0xffff_ffff);
    assert_eq!(BitPaddedInt::decode(&BitPaddedInt::encode(0xffff_ffff, 5, 7), 7), 0xffff_ffff);
}

#[test]
fn valid_padding_means_every_high_bit_clear() {
    assert!(BitPaddedInt::has_valid_padding(&[0, 0x7f, 1, 2]));
    assert!(BitPaddedInt::has_valid_padding(&[]));
    assert!(!BitPaddedInt::has_valid_padding(&[0, 0x80, 1, 2]));
    assert!(!BitPaddedInt::has_valid_padding(&[0, 0, 0, 0xff]));
}

#[test]
fn header_is_parsed() {
    let data = [b'I', b'D', b'3', 4, 0, 0xf0, 0, 0, 2, 1, 99];
    let h = ID3Header::parse(&data, 77).unwrap();
    assert_eq!(h.version, (4, 0));
    assert!(h.flags.unsynchronisation);
    assert!(h.flags.extended);
    assert!(h.flags.experimental);
    assert!(h.flags.footer);
    assert_eq!(h.size, 257);
    assert_eq!(h.offset, 77);
    assert_eq!(h.full_size(), 277);
}

#[test]
fn footer_bit_counts_only_in_version_4() {
    let data = [b'I', b'D', b'3', 3, 1, 0x10, 0, 0, 0, 10];
    let h = ID3Header::parse(&data, 0).unwrap();
    assert_eq!(h.version, (3, 1));
    assert!(!h.flags.footer);
    assert!(!h.flags.unsynchronisation);
    assert_eq!(h.full_size(), 20);
    let v2 = [b'I', b'D', b'3', 2, 0, 0x80, 0, 0, 1, 0];
    let h2 = ID3Header::parse(&v2, 0).unwrap();
    assert!(h2.flags.unsynchronisation);
    assert_eq!(h2.size, 128);
}

#[test]
fn header_without_magic_is_no_header() {
    let wrong = [b'I', b'D', b'4', 4, 0, 0, 0, 0, 0, 0];
    assert!(matches!(ID3Header::parse(&wrong, 0), Err(TagError::ID3NoHeader)));
    let other = [b'T', b'A', b'G', 4, 0, 0, 0, 0, 0, 0, 1, 2, 3];
    assert!(matches!(ID3Header::parse(&other, 5), Err(TagError::ID3NoHeader)));
    let short = [b'I', b'D', b'3', 4, 0, 0, 0, 0, 0];
    assert!(matches!(ID3Header::parse(&short, 0), Err(TagError::ID3NoHeader)));
    assert!(matches!(ID3Header::parse(&[], 0), Err(TagError::ID3NoHeader)));
}

#[test]
fn header_of_version_5_is_unsupported() {
    let data = [b'I', b'D', b'3', 5, 0, 0, 0, 0, 0, 0];
    match ID3Header::parse(&data, 0) {
        Err(TagError::ID3UnsupportedVersion(v)) => assert_eq!(v, "ID3v2.5.0"),
        _ => panic!("version 5 was accepted"),
    }
    let old = [b'I', b'D', b'3', 1, 255, 0, 0, 0, 0, 0];
    match ID3Header::parse(&old, 0) {
        Err(TagError::ID3UnsupportedVersion(v)) => assert_eq!(v, "ID3v2.1.255"),
        _ => panic!("version 1 was accepted"),
    }
    let big = [b'I', b'D', b'3', 120, 34, 0, 0, 0, 0, 0];
    match ID3Header::parse(&big, 0) {
        Err(TagError::ID3UnsupportedVersion(v)) => assert_eq!(v, "ID3v2.120.34"),
        _ => panic!("version 120 was accepted"),
    }
}

#[test]
fn error_messages() {
    assert_eq!(TagError::ID3NoHeader.message(), "No ID3 header found");
    assert_eq!(
        TagError::ID3UnsupportedVersion("ID3v2.5.0".to_string()).message(),
        "Unsupported ID3 version: ID3v2.5.0"
    );
    assert_eq!(TagError::MP4("No moov atom found".to_string()).message(), "MP4 error: No moov atom found");
}

#[test]
fn full_size_counts_header_and_footer() {
    let flags = ID3Flags { unsynchronisation: false, extended: false, experimental: false, footer: false };
    let h = ID3Header { version: (4, 0), flags, size: 100, offset: 0 };
    assert_eq!(h.full_size(), 110);
    let with_footer = ID3Header { version: (4, 0), flags: ID3Flags { footer: true, ..flags }, size: 100, offset: 0 };
    assert_eq!(with_footer.full_size(), 120);
}

#[test]
fn tag_is_found_only_at_the_start() {
    assert_eq!(find_id3v2_header(&[b'I', b'D', b'3', 4, 0, 0, 0, 0, 0, 0]), Some(0));
    assert_eq!(find_id3v2_header(&[b'I', b'D', b'3', 4, 0, 0, 0, 0, 0]), None);
    assert_eq!(find_id3v2_header(&[0, b'I', b'D', b'3', 4, 0, 0, 0, 0, 0, 0]), None);
}

#[test]
fn syncsafe_sizes_are_recognised() {
    let mut tag = frame(b"TIT2", [0, 0, 1, 0x48], 200, 0);
    tag.extend(frame(b"TPE1", [0, 0, 1, 0x48], 200, 0));
    assert_eq!(tag.len(), 420);
    assert_eq!(determine_bpi(&tag, tag.len()), 7);
    assert_eq!(scan_frames(&tag, tag.len(), 7), (2, 0));
    assert_eq!(scan_frames(&tag, tag.len(), 8), (1, -2));
}

#[test]
fn plain_sizes_are_recognised() {
    let mut tag = frame(b"TIT2", [0, 0, 0, 200], 200, 0);
    tag.extend(frame(b"TPE1", [0, 0, 0, 200], 200, 0));
    assert_eq!(determine_bpi(&tag, tag.len()), 8);
    assert_eq!(scan_frames(&tag, tag.len(), 8), (2, 0));
    assert_eq!(scan_frames(&tag, tag.len(), 7), (1, -8));
}

#[test]
fn small_sizes_read_the_same_both_ways() {
    let mut tag = frame(b"TIT2", [0, 0, 0, 5], 5, b'x');
    tag.extend(frame(b"TALB", [0, 0, 0, 100], 100, b'y'));
    assert_eq!(determine_bpi(&tag, tag.len()), 7);
}

#[test]
fn tie_goes_to_eight_bits_when_seven_overshoots() {
    // One frame whose size field reads 129 in eight bits and 1 in seven.
    // In seven bits the walk lands on an implausible header and runs past
    // the end; in eight bits it ends exactly.
    let mut tag = frame(b"TIT2", [0, 0, 0, 0x81], 129, 0xff);
    assert_eq!(scan_frames(&tag, tag.len(), 8), (1, 0));
    let seven = scan_frames(&tag, tag.len(), 7);
    assert_eq!(seven.0, 1);
    assert!(seven.1 >= 1);
    assert_eq!(determine_bpi(&tag, tag.len()), 8);
    // A frames_end past the data counts as the end of the data.
    assert_eq!(determine_bpi(&tag, tag.len() + 1000), 8);
    tag.clear();
    assert_eq!(determine_bpi(&tag, 0), 7);
}

#[test]
fn overshoot_of_a_walk() {
    // A frame that claims more bytes than there are.
    let tag = frame(b"TIT2", [0, 0, 0, 50], 20, 1);
    assert_eq!(scan_frames(&tag, tag.len(), 8), (1, 30));
    // Padding ends the walk; what is left modulo ten is reported, negated.
    let mut padded = frame(b"TIT2", [0, 0, 0, 3], 3, 1);
    padded.extend(std::iter::repeat(0u8).take(14));
    assert_eq!(scan_frames(&padded, padded.len(), 8), (1, -4));
    // Fewer than ten bytes left.
    let short = frame(b"TIT2", [0, 0, 0, 3], 8, 1);
    assert_eq!(scan_frames(&short, short.len(), 8), (1, -5));
    // An implausible id is walked over but not counted.
    let odd = frame(b"tit2", [0, 0, 0, 3], 3, 1);
    assert_eq!(scan_frames(&odd, odd.len(), 8), (0, 0));
}

#[test]
fn stuffing_is_removed() {
    assert_eq!(decode_unsynchronisation(&[0xff, 0x00, 0xe0]).unwrap(), vec![0xff, 0xe0]);
    assert_eq!(decode_unsynchronisation(&[0xff, 0x00, 0x00]).unwrap(), vec![0xff, 0x00]);
    assert_eq!(decode_unsynchronisation(&[1, 2, 3]).unwrap(), vec![1, 2, 3]);
    assert_eq!(decode_unsynchronisation(&[0xff]).unwrap(), vec![0xff]);
    assert_eq!(decode_unsynchronisation(&[0xff, 0x00]).unwrap(), vec![0xff]);
    assert_eq!(decode_unsynchronisation(&[]).unwrap(), Vec::<u8>::new());
    assert_eq!(decode_unsynchronisation(&[0xff, 0x00, 0xff, 0x00, 0x01]).unwrap(), vec![0xff, 0xff, 0x01]);
}

#[test]
fn stuffing_is_inserted() {
    assert_eq!(encode_unsynchronisation(&[0xff, 0xe0]), vec![0xff, 0x00, 0xe0]);
    assert_eq!(encode_unsynchronisation(&[0xff, 0x00]), vec![0xff, 0x00, 0x00]);
    assert_eq!(encode_unsynchronisation(&[0xff, 0xdf]), vec![0xff, 0xdf]);
    assert_eq!(encode_unsynchronisation(&[0xff, 0xff, 0x01]), vec![0xff, 0x00, 0xff, 0x01]);
    assert_eq!(encode_unsynchronisation(&[0xff]), vec![0xff]);
    assert_eq!(encode_unsynchronisation(&[]), Vec::<u8>::new());
}

#[test]
fn unsynchronisation_round_trip() {
    let samples: [&[u8]; 8] = [
        &[],
        &[0xff],
        &[0xff, 0x00],
        &[0xff, 0xff, 0xff],
        &[0xff, 0xe0, 0xff, 0x00, 0x00, 0xff],
        &[0x00, 0xff, 0xfb, 0x90, 0x44],
        &[1, 2, 3, 4, 5],
        &[0xff, 0x00, 0xff, 0x00],
    ];
    for s in samples {
        assert_eq!(decode_unsynchronisation(&encode_unsynchronisation(s)).unwrap(), s.to_vec());
    }
    let mut all = Vec::new();
    for a in 0..=255u8 {
        all.push(0xff);
        all.push(a);
    }
    assert_eq!(decode_unsynchronisation(&encode_unsynchronisation(&all)).unwrap(), all);
}
