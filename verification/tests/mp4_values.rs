use tagbox::atom::{atoms, find_atom, Atom, AtomIter};
use tagbox::decode::decode_mp4_value;
use tagbox::genres::genre_name;
use tagbox::tags::MP4Tags;
use tagbox::value::{merge_mp4_values, MP4Cover, MP4CoverFormat, MP4FreeForm, MP4TagValue};

fn boxed(name: &[u8; 4], body: &[u8]) -> Vec<u8> {
    let mut out = ((body.len() + 8) as u32).to_be_bytes().to_vec();
    out.extend_from_slice(name);
    out.extend_from_slice(body);
    out
}

fn names(list: &[Atom]) -> Vec<[u8; 4]> {
    list.iter().map(|a| a.name).collect()
}

#[test]
fn atoms_are_walked() {
    let mut data = boxed(b"ftyp", b"M4A ");
    data.extend(boxed(b"moov", &boxed(b"udta", &[])));
    data.extend(boxed(b"mdat", &[1, 2, 3]));
    let list = atoms(&data, 0, data.len());
    assert_eq!(names(&list), vec![*b"ftyp", *b"moov", *b"mdat"]);
    assert_eq!(list[1].offset, 12);
    assert_eq!(list[1].size, 16);
    assert_eq!(list[1].header_size, 8);
    assert_eq!(list[1].data_offset, 20);
    assert_eq!(list[1].data_size, 8);
    let inner = atoms(&data, list[1].data_offset, list[1].data_offset + list[1].data_size);
    assert_eq!(names(&inner), vec![*b"udta"]);
    assert_eq!(inner[0].offset, 20);
    assert_eq!(inner[0].data_size, 0);
}

#[test]
fn iterator_yields_one_atom_per_step() {
    let mut data = boxed(b"aaaa", &[]);
    data.extend(boxed(b"bbbb", &[9]));
    let mut it = AtomIter::new(&data, 0, data.len());
    assert_eq!(it.next().unwrap().name, *b"aaaa");
    let second = it.next().unwrap();
    assert_eq!(second.name, *b"bbbb");
    assert_eq!(second.offset, 8);
    assert_eq!(second.size, 9);
    assert!(it.next().is_none());
    assert!(it.next().is_none());
}

#[test]
fn buffer_cut_inside_a_header_yields_nothing() {
    let data = boxed(b"moov", &[1, 2, 3, 4]);
    assert!(atoms(&data[..5], 0, 5).is_empty());
    assert!(atoms(&data[..7], 0, 7).is_empty());
    assert!(atoms(&[], 0, 0).is_empty());
    // Cut inside the content: the declared size does not fit.
    assert!(atoms(&data[..10], 0, 10).is_empty());
    // A size below eight ends the walk.
    assert!(atoms(&[0, 0, 0, 7, b'f', b'r', b'e', b'e', 0, 0], 0, 10).is_empty());
    assert!(atoms(&[0, 0, 0, 1, b'm', b'd', b'a', b't', 0, 0, 0, 0, 0, 0, 0, 16], 0, 16).is_empty());
}

#[test]
fn trailing_bytes_are_ignored() {
    let mut data = boxed(b"ftyp", b"M4A ");
    data.extend(boxed(b"free", &[0; 3]));
    let whole = atoms(&data, 0, data.len());
    data.extend_from_slice(&[0, 0, 0, 20, b'm', b'o', b'o']);
    let list = atoms(&data, 0, data.len());
    assert_eq!(names(&list), vec![*b"ftyp", *b"free"]);
    assert_eq!(list.len(), whole.len());
    assert_eq!(list[1].offset, whole[1].offset);
    assert_eq!(list[1].size, whole[1].size);
}

#[test]
fn end_past_the_data_counts_as_its_end() {
    let data = boxed(b"ftyp", b"M4A ");
    assert_eq!(atoms(&data, 0, data.len() + 50).len(), 1);
    assert!(atoms(&data, 20, 10).is_empty());
}

#[test]
fn named_atom_is_found() {
    let mut data = boxed(b"ftyp", b"M4A ");
    data.extend(boxed(b"moov", &[7]));
    data.extend(boxed(b"moov", &[8, 8]));
    let found = find_atom(&data, 0, data.len(), b"moov").unwrap();
    assert_eq!(found.offset, 12);
    assert_eq!(found.data_size, 1);
    assert!(find_atom(&data, 0, data.len(), b"mdat").is_none());
    let mut it = AtomIter::new(&data, 0, data.len());
    assert!(it.find_name(b"moov").is_some());
    assert_eq!(it.find_name(b"moov").unwrap().offset, 21);
    assert!(it.find_name(b"moov").is_none());
}

#[test]
fn track_number_is_a_pair() {
    match decode_mp4_value(0, "trkn", &[0, 0, 0, 3, 0, 10, 0, 0]) {
        Some(MP4TagValue::IntPair(v)) => assert_eq!(v, vec![(3, 10)]),
        _ => panic!("no pair"),
    }
    match decode_mp4_value(0, "trkn", &[0, 0, 0, 3]) {
        Some(MP4TagValue::IntPair(v)) => assert_eq!(v, vec![(3, 0)]),
        _ => panic!("no pair"),
    }
    match decode_mp4_value(0, "disk", &[0, 0, 0xff, 0xfe, 0x80, 0x00]) {
        Some(MP4TagValue::IntPair(v)) => assert_eq!(v, vec![(-2, -32768)]),
        _ => panic!("no pair"),
    }
    assert!(decode_mp4_value(0, "trkn", &[0, 0, 0]).is_none());
    assert!(decode_mp4_value(0, "disk", &[]).is_none());
}

#[test]
fn text_is_decoded() {
    match decode_mp4_value(1, "\u{a9}nam", "Caf\u{e9}".as_bytes()) {
        Some(MP4TagValue::Text(v)) => assert_eq!(v, vec!["Caf\u{e9}".to_string()]),
        _ => panic!("no text"),
    }
    match decode_mp4_value(1, "\u{a9}nam", &[b'a', 0xff, b'b']) {
        Some(MP4TagValue::Text(v)) => assert_eq!(v, vec!["a\u{fffd}b".to_string()]),
        _ => panic!("no text"),
    }
    match decode_mp4_value(2, "\u{a9}nam", &[0, 0x48, 0, 0x69]) {
        Some(MP4TagValue::Text(v)) => assert_eq!(v, vec!["Hi".to_string()]),
        _ => panic!("no text"),
    }
    match decode_mp4_value(2, "\u{a9}nam", &[0x20, 0xac, 0xd8, 0x00]) {
        Some(MP4TagValue::Text(v)) => assert_eq!(v, vec!["\u{20ac}\u{fffd}".to_string()]),
        _ => panic!("no text"),
    }
}

#[test]
fn integers_are_decoded() {
    let cases: [(&[u8], i64); 9] = [
        (&[5], 5),
        (&[0xff], -1),
        (&[0x01, 0x00], 256),
        (&[0x80, 0x00], -32768),
        (&[0x80, 0x00, 0x00], -8388608),
        (&[0x01, 0x02, 0x03], 0x010203),
        (&[0xff, 0xff, 0xff, 0xfe], -2),
        (&[0x7f, 0xff, 0xff, 0xff, 0xff, 0xff, 0xff, 0xff], i64::MAX),
        (&[0x80, 0, 0, 0, 0, 0, 0, 0], i64::MIN),
    ];
    for (bytes, want) in cases {
        match decode_mp4_value(21, "tmpo", bytes) {
            Some(MP4TagValue::Integer(v)) => assert_eq!(v, vec![want]),
            _ => panic!("no integer"),
        }
    }
    assert!(decode_mp4_value(21, "tmpo", &[]).is_none());
    assert!(decode_mp4_value(21, "tmpo", &[1, 2, 3, 4, 5]).is_none());
    assert!(decode_mp4_value(21, "tmpo", &[1, 2, 3, 4, 5, 6, 7]).is_none());
}

#[test]
fn covers_and_raw_data_are_decoded() {
    match decode_mp4_value(13, "covr", &[1, 2, 3]) {
        Some(MP4TagValue::Cover(v)) => {
            assert_eq!(v.len(), 1);
            assert_eq!(v[0].data, vec![1, 2, 3]);
            assert_eq!(v[0].format, MP4CoverFormat::JPEG);
        }
        _ => panic!("no cover"),
    }
    match decode_mp4_value(14, "covr", &[4]) {
        Some(MP4TagValue::Cover(v)) => assert_eq!(v[0].format, MP4CoverFormat::PNG),
        _ => panic!("no cover"),
    }
    match decode_mp4_value(0, "xxxx", &[9, 8]) {
        Some(MP4TagValue::Data(v)) => assert_eq!(v, vec![9, 8]),
        _ => panic!("no data"),
    }
    match decode_mp4_value(77, "trkn", &[9, 8, 7, 6, 5, 4]) {
        Some(MP4TagValue::Data(v)) => assert_eq!(v, vec![9, 8, 7, 6, 5, 4]),
        _ => panic!("no data"),
    }
}

#[test]
fn genre_numbers_count_from_one() {
    match decode_mp4_value(0, "gnre", &[0, 1]) {
        Some(MP4TagValue::Text(v)) => assert_eq!(v, vec!["Blues".to_string()]),
        _ => panic!("no genre"),
    }
    match decode_mp4_value(0, "gnre", &[0, 18, 99]) {
        Some(MP4TagValue::Text(v)) => assert_eq!(v, vec!["Rock".to_string()]),
        _ => panic!("no genre"),
    }
    match decode_mp4_value(0, "gnre", &[0, 192]) {
        Some(MP4TagValue::Text(v)) => assert_eq!(v, vec!["Psybient".to_string()]),
        _ => panic!("no genre"),
    }
    assert!(decode_mp4_value(0, "gnre", &[0, 0]).is_none());
    assert!(decode_mp4_value(0, "gnre", &[0, 193]).is_none());
    assert!(decode_mp4_value(0, "gnre", &[1, 1]).is_none());
    assert!(decode_mp4_value(0, "gnre", &[5]).is_none());
}

#[test]
fn genre_table() {
    assert_eq!(genre_name(0), Some("Blues"));
    assert_eq!(genre_name(12), Some("Other"));
    assert_eq!(genre_name(79), Some("Hard Rock"));
    assert_eq!(genre_name(80), Some("Folk"));
    assert_eq!(genre_name(147), Some("Synthpop"));
    assert_eq!(genre_name(191), Some("Psybient"));
    assert_eq!(genre_name(192), None);
}

#[test]
fn values_of_one_kind_merge() {
    let mut a = MP4TagValue::Integer(vec![5]);
    merge_mp4_values(&mut a, MP4TagValue::Integer(vec![7]));
    assert!(matches!(&a, MP4TagValue::Integer(v) if v == &vec![5, 7]));

    let mut t = MP4TagValue::Text(vec!["a".to_string()]);
    merge_mp4_values(&mut t, MP4TagValue::Text(vec!["b".to_string(), "c".to_string()]));
    assert!(matches!(&t, MP4TagValue::Text(v) if v == &vec!["a".to_string(), "b".to_string(), "c".to_string()]));

    let mut p = MP4TagValue::IntPair(vec![(1, 2)]);
    merge_mp4_values(&mut p, MP4TagValue::IntPair(vec![(3, 4)]));
    assert!(matches!(&p, MP4TagValue::IntPair(v) if v == &vec![(1, 2), (3, 4)]));

    let mut c = MP4TagValue::Cover(vec![MP4Cover { data: vec![1], format: MP4CoverFormat::JPEG }]);
    merge_mp4_values(&mut c, MP4TagValue::Cover(vec![MP4Cover { data: vec![2], format: MP4CoverFormat::PNG }]));
    match &c {
        MP4TagValue::Cover(v) => {
            assert_eq!(v.len(), 2);
            assert_eq!(v[1].data, vec![2]);
            assert_eq!(v[1].format, MP4CoverFormat::PNG);
        }
        _ => panic!("kind changed"),
    }

    let mut f = MP4TagValue::FreeForm(vec![MP4FreeForm { data: vec![1], dataformat: 1 }]);
    merge_mp4_values(&mut f, MP4TagValue::FreeForm(vec![MP4FreeForm { data: vec![2], dataformat: 0 }]));
    assert!(matches!(&f, MP4TagValue::FreeForm(v) if v.len() == 2 && v[1].data == vec![2]));
}

#[test]
fn values_of_different_kinds_do_not_merge() {
    let mut a = MP4TagValue::Integer(vec![5]);
    merge_mp4_values(&mut a, MP4TagValue::Text(vec!["x".to_string()]));
    assert!(matches!(&a, MP4TagValue::Integer(v) if v == &vec![5]));

    let mut b = MP4TagValue::Bool(true);
    merge_mp4_values(&mut b, MP4TagValue::Bool(false));
    assert!(matches!(b, MP4TagValue::Bool(true)));

    let mut d = MP4TagValue::Data(vec![1]);
    merge_mp4_values(&mut d, MP4TagValue::Data(vec![2]));
    assert!(matches!(&d, MP4TagValue::Data(v) if v == &vec![1]));
}

#[test]
fn tags_keep_order_and_unique_keys() {
    let mut tags = MP4Tags::new();
    assert_eq!(tags.len(), 0);
    assert!(tags.keys().is_empty());
    tags.set("\u{a9}nam", MP4TagValue::Text(vec!["One".to_string()]));
    tags.set("trkn", MP4TagValue::IntPair(vec![(1, 9)]));
    tags.set("cpil", MP4TagValue::Bool(true));
    assert_eq!(tags.keys(), vec!["\u{a9}nam".to_string(), "trkn".to_string(), "cpil".to_string()]);
    tags.set("trkn", MP4TagValue::IntPair(vec![(2, 9)]));
    assert_eq!(tags.keys(), vec!["\u{a9}nam".to_string(), "trkn".to_string(), "cpil".to_string()]);
    assert_eq!(tags.len(), 3);
    assert!(matches!(tags.get("trkn"), Some(MP4TagValue::IntPair(v)) if v == &vec![(2, 9)]));
    assert!(tags.get("disk").is_none());
    assert!(tags.contains_key("cpil"));
    assert!(!tags.contains_key("cpi"));
    assert_eq!(tags.position("cpil"), 2);
    assert_eq!(tags.position("none"), 3);
}

#[test]
fn tags_can_be_changed_and_deleted() {
    let mut tags = MP4Tags::new();
    tags.set("a", MP4TagValue::Integer(vec![1]));
    tags.set("b", MP4TagValue::Integer(vec![2]));
    tags.set("c", MP4TagValue::Integer(vec![3]));
    if let Some(v) = tags.get_mut("b") {
        *v = MP4TagValue::Bool(false);
    }
    assert!(matches!(tags.get("b"), Some(MP4TagValue::Bool(false))));
    assert!(tags.get_mut("zz").is_none());
    tags.delete("a");
    assert_eq!(tags.keys(), vec!["b".to_string(), "c".to_string()]);
    tags.delete("a");
    assert_eq!(tags.len(), 2);
    tags.items.push(("c".to_string(), MP4TagValue::Bool(true)));
    tags.delete("c");
    assert_eq!(tags.keys(), vec!["b".to_string()]);
}

#[test]
fn read_values_merge_into_their_key() {
    let mut tags = MP4Tags::new();
    tags.merge_value("tmpo", MP4TagValue::Integer(vec![5]));
    tags.merge_value("\u{a9}nam", MP4TagValue::Text(vec!["t".to_string()]));
    tags.merge_value("tmpo", MP4TagValue::Integer(vec![7]));
    tags.merge_value("tmpo", MP4TagValue::Text(vec!["no".to_string()]));
    assert_eq!(tags.keys(), vec!["tmpo".to_string(), "\u{a9}nam".to_string()]);
    assert!(matches!(tags.get("tmpo"), Some(MP4TagValue::Integer(v)) if v == &vec![5, 7]));
}

#[test]
fn cover_formats_have_their_type_indicators() {
    assert_eq!(MP4CoverFormat::JPEG.type_indicator(), 13);
    assert_eq!(MP4CoverFormat::PNG.type_indicator(), 14);
}
