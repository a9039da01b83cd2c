use tagbox::frames::{
    extended_header_length, prepare_payload, read_frames, read_id3_tag, walk_frames, FrameFlags, RawFrame,
};
use tagbox::header::{ID3Flags, ID3Header};
use tagbox::id3tags::{Frame, ID3Tags, LazyFrame};
use tagbox::textframe::{
    decode_simple_frame, gather_simple_frames, read_simple_text, read_simple_url, trimmed_length,
};

fn frame(id: &[u8], size_field: &[u8], flags: [u8; 2], payload: &[u8]) -> Vec<u8> {
    let mut out = id.to_vec();
    out.extend_from_slice(size_field);
    out.extend_from_slice(&flags);
    out.extend_from_slice(payload);
    out
}

fn pairs(frames: &[RawFrame]) -> Vec<(Vec<u8>, Vec<u8>)> {
    frames.iter().map(|f| (f.id.clone(), f.data.clone())).collect()
}

fn header(major: u8, unsynchronisation: bool, extended: bool) -> ID3Header {
    ID3Header {
        version: (major, 0),
        flags: ID3Flags { unsynchronisation, extended, experimental: false, footer: false },
        size: 0,
        offset: 0,
    }
}

#[test]
fn frames_are_walked_until_padding() {
    let mut body = frame(b"TIT2", &[0, 0, 0, 3], [0, 0], &[3, b'a', b'b']);
    body.extend(frame(b"TPE1", &[0, 0, 0, 1], [0, 0], &[7]));
    body.extend_from_slice(&[0; 12]);
    body.extend(frame(b"TALB", &[0, 0, 0, 1], [0, 0], &[1]));
    let want = vec![(b"TIT2".to_vec(), vec![3, b'a', b'b']), (b"TPE1".to_vec(), vec![7])];
    assert_eq!(pairs(&walk_frames(&body, 4, 7)), want);
    assert_eq!(pairs(&walk_frames(&body, 3, 8)), want);
}

#[test]
fn walk_stops_where_no_frame_starts() {
    assert!(walk_frames(&[], 4, 7).is_empty());
    assert!(walk_frames(&[b'T', b'I', b'T', b'2', 0, 0, 0, 1, 0], 4, 7).is_empty());
    // An empty frame.
    assert!(walk_frames(&frame(b"TIT2", &[0, 0, 0, 0], [0, 0], &[]), 4, 7).is_empty());
    // A frame that reaches past the body.
    assert!(walk_frames(&frame(b"TIT2", &[0, 0, 0, 5], [0, 0], &[1, 2, 3, 4]), 4, 7).is_empty());
    // An implausible id.
    let mut body = frame(b"TIT2", &[0, 0, 0, 1], [0, 0], &[9]);
    body.extend(frame(b"tit2", &[0, 0, 0, 1], [0, 0], &[9]));
    body.extend(frame(b"TALB", &[0, 0, 0, 1], [0, 0], &[9]));
    assert_eq!(pairs(&walk_frames(&body, 4, 7)), vec![(b"TIT2".to_vec(), vec![9])]);
}

#[test]
fn frame_sizes_follow_the_width() {
    let payload = vec![5u8; 129];
    let body = frame(b"TIT2", &[0, 0, 1, 1], [0, 0], &payload);
    assert_eq!(pairs(&walk_frames(&body, 4, 7)), vec![(b"TIT2".to_vec(), payload.clone())]);
    assert!(walk_frames(&body, 4, 8).is_empty());
    let plain = frame(b"TIT2", &[0, 0, 0, 129], [0, 0], &payload);
    assert_eq!(pairs(&walk_frames(&plain, 4, 8)), vec![(b"TIT2".to_vec(), payload.clone())]);
    assert_eq!(pairs(&walk_frames(&plain, 4, 7)), vec![(b"TIT2".to_vec(), vec![5])]);
}

#[test]
fn frame_flags_of_version_4() {
    let mut body = frame(b"AAAA", &[0, 0, 0, 2], [0, 0x04], &[1, 2]);
    body.extend(frame(b"BBBB", &[0, 0, 0, 2], [0, 0x08], &[1, 2]));
    body.extend(frame(b"CCCC", &[0, 0, 0, 6], [0, 0x01], &[0, 0, 0, 2, 8, 9]));
    body.extend(frame(b"DDDD", &[0, 0, 0, 3], [0, 0x02], &[0xff, 0x00, 0xe0]));
    body.extend(frame(b"EEEE", &[0, 0, 0, 7], [0, 0x03], &[0, 0, 0, 2, 0xff, 0x00, 0x00]));
    body.extend(frame(b"FFFF", &[0, 0, 0, 2], [0, 0x01], &[4, 5]));
    body.extend(frame(b"GGGG", &[0, 0, 0, 2], [0xff, 0xf0], &[6, 7]));
    let want = vec![
        (b"CCCC".to_vec(), vec![8, 9]),
        (b"DDDD".to_vec(), vec![0xff, 0xe0]),
        (b"EEEE".to_vec(), vec![0xff, 0x00]),
        (b"FFFF".to_vec(), vec![4, 5]),
        (b"GGGG".to_vec(), vec![6, 7]),
    ];
    assert_eq!(pairs(&walk_frames(&body, 4, 7)), want);
}

#[test]
fn frame_flags_of_version_3() {
    let mut body = frame(b"AAAA", &[0, 0, 0, 2], [0, 0x40], &[1, 2]);
    body.extend(frame(b"BBBB", &[0, 0, 0, 6], [0, 0x80], &[0, 0, 0, 2, 1, 2]));
    body.extend(frame(b"CCCC", &[0, 0, 0, 3], [0, 0x02], &[0xff, 0x00, 0xe0]));
    body.extend(frame(b"DDDD", &[0, 0, 0, 2], [0, 0x0f], &[3, 4]));
    let want = vec![(b"CCCC".to_vec(), vec![0xff, 0x00, 0xe0]), (b"DDDD".to_vec(), vec![3, 4])];
    assert_eq!(pairs(&walk_frames(&body, 3, 8)), want);
}

#[test]
fn payload_is_prepared() {
    let none = FrameFlags { compressed: false, encrypted: false, unsynchronised: false, has_data_length: false };
    assert_eq!(prepare_payload(&[1, 2, 3], &none), Some(vec![1, 2, 3]));
    assert_eq!(prepare_payload(&[1, 2, 3], &FrameFlags { encrypted: true, ..none }), None);
    assert_eq!(prepare_payload(&[1, 2, 3], &FrameFlags { compressed: true, ..none }), None);
    assert_eq!(prepare_payload(&[1, 2, 3, 4, 5], &FrameFlags { has_data_length: true, ..none }), Some(vec![5]));
    assert_eq!(prepare_payload(&[1, 2, 3, 4], &FrameFlags { has_data_length: true, ..none }), Some(vec![]));
    assert_eq!(
        prepare_payload(&[0xff, 0, 1], &FrameFlags { unsynchronised: true, ..none }),
        Some(vec![0xff, 1])
    );
}

#[test]
fn frames_of_version_2_have_short_headers() {
    let mut body = frame(b"TT2", &[0, 0, 2], [3, 4], &[]);
    body.extend(vec![b'T', b'P', b'1', 0, 1, 0]);
    body.extend(vec![9u8; 256]);
    body.extend(vec![b'P', b'I', b'C', 0, 0, 1, 5]);
    body.extend(vec![0u8; 6]);
    let got = walk_frames(&body, 2, 8);
    assert_eq!(
        pairs(&got),
        vec![(b"TT2".to_vec(), vec![3, 4]), (b"TP1".to_vec(), vec![9u8; 256]), (b"PIC".to_vec(), vec![5])]
    );
    assert!(walk_frames(&[b'T', b'T', b'2', 0, 0, 0], 2, 8).is_empty());
    assert!(walk_frames(&[b'T', b'T', b'2', 0, 0, 9, 1], 2, 8).is_empty());
    assert!(walk_frames(&[b'T', b't', b'2', 0, 0, 1, 1], 2, 8).is_empty());
}

#[test]
fn extended_header_is_measured() {
    assert_eq!(extended_header_length(&[0, 0, 0, 6, 1, 0], 4), 6);
    assert_eq!(extended_header_length(&[0, 0, 1, 0], 4), 128);
    assert_eq!(extended_header_length(&[0, 0, 0, 6, 0, 0, 0, 0, 0, 0], 3), 10);
    assert_eq!(extended_header_length(&[0, 0, 1, 0], 3), 260);
    assert_eq!(extended_header_length(&[0, 0, 1], 3), 0);
}

#[test]
fn frames_are_read_after_the_extended_header() {
    let one = frame(b"TIT2", &[0, 0, 0, 2], [0, 0], &[0xff, 0xe1]);
    let mut v4 = vec![0, 0, 0, 6, 1, 0];
    v4.extend(one.clone());
    let want = vec![(b"TIT2".to_vec(), vec![0xff, 0xe1])];
    assert_eq!(pairs(&read_frames(&v4, &header(4, false, true))), want);
    let mut v3 = vec![0, 0, 0, 6, 0, 0, 0, 0, 0, 0];
    v3.extend(one.clone());
    assert_eq!(pairs(&read_frames(&v3, &header(3, false, true))), want);
    assert_eq!(pairs(&read_frames(&one, &header(3, false, false))), want);
    assert!(read_frames(&[0, 0, 0, 200, 0, 0], &header(3, false, true)).is_empty());
    // Tag-wide unsynchronisation is reversed before version 4 only.
    let stuffed = frame(b"TIT2", &[0, 0, 0, 2], [0, 0], &[0xff, 0x00, 0xe1]);
    assert_eq!(pairs(&read_frames(&stuffed, &header(3, true, false))), want);
    assert!(pairs(&read_frames(&stuffed, &header(4, true, false))) != want);
}

#[test]
fn version_4_sizes_are_found_out() {
    let payload = vec![0u8; 200];
    let mut plain = frame(b"TIT2", &[0, 0, 0, 200], [0, 0], &payload);
    plain.extend(frame(b"TPE1", &[0, 0, 0, 200], [0, 0], &payload));
    let got = read_frames(&plain, &header(4, false, false));
    assert_eq!(got.len(), 2);
    assert_eq!(got[1].id, b"TPE1".to_vec());
    assert_eq!(got[1].data.len(), 200);
    let mut safe = frame(b"TIT2", &[0, 0, 1, 0x48], [0, 0], &payload);
    safe.extend(frame(b"TPE1", &[0, 0, 1, 0x48], [0, 0], &payload));
    let got = read_frames(&safe, &header(4, false, false));
    assert_eq!(got.len(), 2);
    assert_eq!(got[0].data.len(), 200);
}

#[test]
fn hash_keys() {
    let text = Frame::Text { id: "TIT2".to_string(), encoding: 3, text: vec!["a".to_string()] };
    assert_eq!(text.hash_key(), "TIT2");
    let user = Frame::UserText { description: "mood".to_string(), encoding: 0, text: vec![] };
    assert_eq!(user.hash_key(), "TXXX:mood");
    assert_eq!(Frame::Url { id: "WOAR".to_string(), url: "u".to_string() }.hash_key(), "WOAR");
    assert_eq!(Frame::UserUrl { description: "d".to_string(), url: "u".to_string() }.hash_key(), "WXXX:d");
    let comment = Frame::Comment { language: "eng".to_string(), description: "d".to_string(), text: "t".to_string() };
    assert_eq!(comment.hash_key(), "COMM:d:eng");
    let lyrics = Frame::Lyrics { language: "deu".to_string(), description: "".to_string(), text: "t".to_string() };
    assert_eq!(lyrics.hash_key(), "USLT::deu");
    let picture = Frame::Picture { mime: "image/png".to_string(), picture_type: 3, description: "x".to_string(), data: vec![] };
    assert_eq!(picture.hash_key(), "APIC");
    assert_eq!(Frame::Popularimeter { email: "a@b".to_string(), rating: 1, count: 2 }.hash_key(), "POPM:a@b");
    assert_eq!(Frame::Binary { id: "PRIV".to_string(), data: vec![1] }.hash_key(), "PRIV");
    assert_eq!(Frame::PairedText { id: "TIPL".to_string(), people: vec![] }.hash_key(), "TIPL");
}

#[test]
fn first_frame_of_a_key_wins() {
    let mut tags = ID3Tags::new();
    assert!(tags.add(Frame::Text { id: "TIT2".to_string(), encoding: 3, text: vec!["first".to_string()] }));
    assert!(tags.add(Frame::Comment { language: "eng".to_string(), description: "a".to_string(), text: "1".to_string() }));
    assert!(!tags.add(Frame::Text { id: "TIT2".to_string(), encoding: 3, text: vec!["second".to_string()] }));
    assert!(tags.add(Frame::Comment { language: "eng".to_string(), description: "b".to_string(), text: "2".to_string() }));
    assert_eq!(tags.keys(), vec!["TIT2".to_string(), "COMM:a:eng".to_string(), "COMM:b:eng".to_string()]);
    assert_eq!(tags.len(), 3);
    match tags.get("TIT2") {
        Some(LazyFrame::Decoded(Frame::Text { text, .. })) => assert_eq!(text, &vec!["first".to_string()]),
        _ => panic!("no title"),
    }
    assert_eq!(tags.get_all("TIT2").len(), 1);
    assert!(tags.get_all("TALB").is_empty());
    assert!(tags.get("TALB").is_none());
}

#[test]
fn records_are_set_and_deleted() {
    let mut tags = ID3Tags::new();
    tags.set("TIT2", LazyFrame::Raw { id: "TIT2".to_string(), start: 2, end: 5 });
    tags.set("TALB", LazyFrame::Raw { id: "TALB".to_string(), start: 5, end: 6 });
    tags.set("TIT2", LazyFrame::Decoded(Frame::Binary { id: "TIT2".to_string(), data: vec![1] }));
    assert_eq!(tags.keys(), vec!["TIT2".to_string(), "TALB".to_string()]);
    assert!(matches!(tags.get("TIT2"), Some(LazyFrame::Decoded(_))));
    assert!(tags.delete("TIT2"));
    assert!(!tags.delete("TIT2"));
    assert_eq!(tags.keys(), vec!["TALB".to_string()]);
    assert_eq!(tags.position("TALB"), 0);
    assert_eq!(tags.position("TIT2"), 1);
}

#[test]
fn lazy_record_is_decoded_once() {
    let buffer = [0u8, 1, 2, 3, 4, 5];
    let mut record = LazyFrame::Raw { id: "TIT2".to_string(), start: 2, end: 5 };
    assert_eq!(record.raw_bytes(&buffer), Some(&buffer[2..5]));
    assert_eq!(LazyFrame::Raw { id: "X".to_string(), start: 2, end: 7 }.raw_bytes(&buffer), None);
    assert_eq!(LazyFrame::Raw { id: "X".to_string(), start: 3, end: 2 }.raw_bytes(&buffer), None);
    record.settle(Frame::Binary { id: "TIT2".to_string(), data: vec![2, 3, 4] });
    assert!(record.raw_bytes(&buffer).is_none());
    record.settle(Frame::Binary { id: "TIT2".to_string(), data: vec![9] });
    match &record {
        LazyFrame::Decoded(Frame::Binary { data, .. }) => assert_eq!(data, &vec![2, 3, 4]),
        _ => panic!("not decoded"),
    }
}

#[test]
fn tag_is_read_from_the_start_of_a_file() {
    let mut file = vec![b'I', b'D', b'3', 3, 0, 0, 0, 0, 0, 21];
    file.extend(frame(b"TIT2", &[0, 0, 0, 1], [0, 0], &[7]));
    file.extend_from_slice(&[0; 10]);
    file.extend_from_slice(&[0xff, 0xfb, 0x90, 0x00]);
    let (h, frames) = read_id3_tag(&file).unwrap();
    assert_eq!(h.version, (3, 0));
    assert_eq!(h.size, 21);
    assert_eq!(pairs(&frames), vec![(b"TIT2".to_vec(), vec![7])]);
    // The announced body must lie in the file.
    assert!(read_id3_tag(&file[..30]).is_none());
    assert!(read_id3_tag(&file[..31]).is_some());
    assert!(read_id3_tag(&file[1..]).is_none());
    assert!(read_id3_tag(&[b'I', b'D', b'3', 5, 0, 0, 0, 0, 0, 0]).is_none());
    assert!(read_id3_tag(&[]).is_none());
}

fn raw(id: &[u8], data: &[u8]) -> RawFrame {
    RawFrame { id: id.to_vec(), data: data.to_vec() }
}

#[test]
fn plain_text_is_read() {
    assert_eq!(read_simple_text(&[3, b'H', b'i']), Some("Hi".to_string()));
    assert_eq!(read_simple_text(&[3, 0xc3, 0xa9, 0, 0]), Some("\u{e9}".to_string()));
    assert_eq!(read_simple_text(&[0, 0xe9, b'x', 0]), Some("\u{e9}x".to_string()));
    assert_eq!(read_simple_text(&[0, b'a']), Some("a".to_string()));
    // Several values, separated by a zero byte.
    assert_eq!(read_simple_text(&[3, b'a', 0, b'b']), None);
    assert_eq!(read_simple_text(&[0, b'a', 0, b'b', 0]), None);
    assert_eq!(read_simple_text(&[0, 0, b'b']), None);
    // UTF-8 that is not valid.
    assert_eq!(read_simple_text(&[3, 0xe9, b'x']), None);
    assert_eq!(read_simple_text(&[3, 0xc3]), None);
    // Nothing to read.
    assert_eq!(read_simple_text(&[]), None);
    assert_eq!(read_simple_text(&[3]), None);
    assert_eq!(read_simple_text(&[0, 0, 0]), None);
    // Other encodings.
    assert_eq!(read_simple_text(&[1, 0xff, 0xfe, b'a', 0]), None);
    assert_eq!(read_simple_text(&[2, 0, b'a']), None);
}

#[test]
fn plain_links_are_read() {
    assert_eq!(read_simple_url(b"http://x.org\0\0"), Some("http://x.org".to_string()));
    assert_eq!(read_simple_url(b"a\0b"), Some("a\0b".to_string()));
    assert_eq!(read_simple_url(&[b'a', 0x80]), None);
    assert_eq!(read_simple_url(&[0, 0]), None);
    assert_eq!(read_simple_url(&[]), None);
    assert_eq!(trimmed_length(&[1, 0, 2, 0, 0]), 3);
    assert_eq!(trimmed_length(&[0, 0]), 0);
}

#[test]
fn plain_frames_are_decoded() {
    match decode_simple_frame(&raw(b"TIT2", &[3, b'T', b'i', 0])) {
        Some(Frame::Text { id, encoding, text }) => {
            assert_eq!(id, "TIT2");
            assert_eq!(encoding, 3);
            assert_eq!(text, vec!["Ti".to_string()]);
        }
        _ => panic!("no text frame"),
    }
    match decode_simple_frame(&raw(b"WOAR", b"http://x.org")) {
        Some(Frame::Url { id, url }) => {
            assert_eq!(id, "WOAR");
            assert_eq!(url, "http://x.org");
        }
        _ => panic!("no link frame"),
    }
    for id in [&b"TXXX"[..], b"TIPL", b"TMCL", b"IPLS", b"WXXX", b"APIC", b"COMM", b"TT2", b"TIT22"] {
        assert!(decode_simple_frame(&raw(id, &[3, b'a'])).is_none());
    }
    assert!(decode_simple_frame(&raw(b"TIT2", &[1, 0xff, 0xfe])).is_none());
    assert!(decode_simple_frame(&raw(b"TIT2", &[])).is_none());
    assert!(decode_simple_frame(&raw(b"WOAR", &[0xff])).is_none());
}

#[test]
fn walked_frames_fill_a_tag_first_come_first_kept() {
    let mut body = frame(b"TIT2", &[0, 0, 0, 4], [0, 0], &[3, b'O', b'n', b'e']);
    body.extend(frame(b"TPE1", &[0, 0, 0, 3], [0, 0], &[0, b'M', b'e']));
    body.extend(frame(b"TIT2", &[0, 0, 0, 4], [0, 0], &[3, b'T', b'w', b'o']));
    let mut tags = ID3Tags::new();
    let mut kept = Vec::new();
    for f in walk_frames(&body, 3, 8) {
        if let Some(decoded) = decode_simple_frame(&f) {
            kept.push(tags.add(decoded));
        }
    }
    assert_eq!(kept, vec![true, true, false]);
    assert_eq!(tags.keys(), vec!["TIT2".to_string(), "TPE1".to_string()]);
    match tags.get("TIT2") {
        Some(LazyFrame::Decoded(Frame::Text { text, .. })) => assert_eq!(text, &vec!["One".to_string()]),
        _ => panic!("no title"),
    }
}

#[test]
fn plain_frames_are_gathered() {
    let mut body = frame(b"TIT2", &[0, 0, 0, 4], [0, 0], &[3, b'O', b'n', b'e']);
    body.extend(frame(b"APIC", &[0, 0, 0, 2], [0, 0], &[1, 2]));
    body.extend(frame(b"WOAR", &[0, 0, 0, 3], [0, 0], b"x.y"));
    body.extend(frame(b"TIT2", &[0, 0, 0, 4], [0, 0], &[3, b'T', b'w', b'o']));
    body.extend(frame(b"TALB", &[0, 0, 0, 3], [0, 0], &[1, 0xff, 0xfe]));
    let tags = gather_simple_frames(&walk_frames(&body, 4, 7));
    assert_eq!(tags.keys(), vec!["TIT2".to_string(), "WOAR".to_string()]);
    match tags.get("TIT2") {
        Some(LazyFrame::Decoded(Frame::Text { text, .. })) => assert_eq!(text, &vec!["One".to_string()]),
        _ => panic!("no title"),
    }
    assert!(matches!(tags.get("WOAR"), Some(LazyFrame::Decoded(Frame::Url { url, .. })) if url == "x.y"));
    assert_eq!(gather_simple_frames(&[]).len(), 0);
}
