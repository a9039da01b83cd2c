use tagbox::error::TagError;
use tagbox::info::{locate_moov, parse_mp4_audio_format, parse_mp4_timing};
use tagbox::probe::score;

fn boxed(name: &[u8; 4], body: &[u8]) -> Vec<u8> {
    let mut out = ((body.len() + 8) as u32).to_be_bytes().to_vec();
    out.extend_from_slice(name);
    out.extend_from_slice(body);
    out
}

fn cat(parts: &[Vec<u8>]) -> Vec<u8> {
    parts.concat()
}

fn mvhd0(timescale: u32, duration: u32) -> Vec<u8> {
    let mut body = vec![0u8; 12];
    body.extend_from_slice(&timescale.to_be_bytes());
    body.extend_from_slice(&duration.to_be_bytes());
    boxed(b"mvhd", &body)
}

fn mvhd1(timescale: u32, duration: u64) -> Vec<u8> {
    let mut body = vec![1u8];
    body.extend_from_slice(&[0; 19]);
    body.extend_from_slice(&timescale.to_be_bytes());
    body.extend_from_slice(&duration.to_be_bytes());
    boxed(b"mvhd", &body)
}

fn stsd(codec: &[u8; 4], channels: u16, bits: u16, rate: u16) -> Vec<u8> {
    let mut entry = vec![0, 0, 0, 36];
    entry.extend_from_slice(codec);
    entry.extend_from_slice(&[0; 16]);
    entry.extend_from_slice(&channels.to_be_bytes());
    entry.extend_from_slice(&bits.to_be_bytes());
    entry.extend_from_slice(&[0; 4]);
    entry.extend_from_slice(&rate.to_be_bytes());
    entry.extend_from_slice(&[0; 2]);
    let mut body = vec![0, 0, 0, 0, 0, 0, 0, 1];
    body.extend(entry);
    boxed(b"stsd", &body)
}

fn hdlr(kind: &[u8; 4]) -> Vec<u8> {
    let mut body = vec![0u8; 8];
    body.extend_from_slice(kind);
    body.extend_from_slice(&[0; 13]);
    boxed(b"hdlr", &body)
}

fn trak(kind: &[u8; 4], description: Vec<u8>) -> Vec<u8> {
    let minf = boxed(b"minf", &boxed(b"stbl", &description));
    boxed(b"trak", &boxed(b"mdia", &cat(&[hdlr(kind), minf])))
}

#[test]
fn timing_is_read() {
    let body = cat(&[boxed(b"free", &[]), mvhd0(44100, 441000)]);
    let t = parse_mp4_timing(&body, 0, body.len());
    assert_eq!((t.duration, t.timescale), (441000, 44100));
    let long = mvhd1(90000, 0x1_0000_0005);
    let t = parse_mp4_timing(&long, 0, long.len());
    assert_eq!((t.duration, t.timescale), (0x1_0000_0005, 90000));
}

#[test]
fn timing_falls_back() {
    let t = parse_mp4_timing(&[], 0, 0);
    assert_eq!((t.duration, t.timescale), (0, 1000));
    let short = boxed(b"mvhd", &[0; 19]);
    let t = parse_mp4_timing(&short, 0, short.len());
    assert_eq!((t.duration, t.timescale), (0, 1000));
    let mut odd = mvhd0(5, 6);
    odd[8] = 2;
    let t = parse_mp4_timing(&odd, 0, odd.len());
    assert_eq!((t.duration, t.timescale), (0, 1000));
    let mut cut = mvhd1(5, 6);
    cut.truncate(8 + 31);
    cut[3] = 39;
    let t = parse_mp4_timing(&cut, 0, cut.len());
    assert_eq!((t.duration, t.timescale), (0, 1000));
}

#[test]
fn audio_format_is_read() {
    let body = cat(&[mvhd0(1, 1), trak(b"vide", stsd(b"avc1", 9, 9, 9)), trak(b"soun", stsd(b"alac", 6, 24, 48000))]);
    let f = parse_mp4_audio_format(&body, 0, body.len());
    assert_eq!(f.codec, "alac");
    assert_eq!((f.channels, f.bits_per_sample, f.sample_rate), (6, 24, 48000));
}

#[test]
fn audio_format_falls_back() {
    let f = parse_mp4_audio_format(&[], 0, 0);
    assert_eq!(f.codec, "mp4a");
    assert_eq!((f.channels, f.bits_per_sample, f.sample_rate), (2, 16, 44100));
    let video = trak(b"vide", stsd(b"avc1", 9, 9, 9));
    let f = parse_mp4_audio_format(&video, 0, video.len());
    assert_eq!(f.codec, "mp4a");
    let short = trak(b"soun", boxed(b"stsd", &[0; 43]));
    let f = parse_mp4_audio_format(&short, 0, short.len());
    assert_eq!((f.channels, f.codec.as_str()), (2, "mp4a"));
    let no_stsd = trak(b"soun", boxed(b"stts", &[0; 60]));
    let f = parse_mp4_audio_format(&no_stsd, 0, no_stsd.len());
    assert_eq!(f.sample_rate, 44100);
}

#[test]
fn last_sound_track_decides() {
    let body = cat(&[trak(b"soun", stsd(b"mp4a", 2, 16, 44100)), trak(b"soun", stsd(b"ac-3", 1, 8, 8000))]);
    let f = parse_mp4_audio_format(&body, 0, body.len());
    assert_eq!(f.codec, "ac-3");
    assert_eq!((f.channels, f.bits_per_sample, f.sample_rate), (1, 8, 8000));
}

#[test]
fn moov_is_located() {
    let file = cat(&[boxed(b"ftyp", b"M4A "), boxed(b"moov", &[1, 2, 3])]);
    assert!(matches!(locate_moov(&file), Ok((20, 3))));
    match locate_moov(&boxed(b"ftyp", b"M4A ")) {
        Err(TagError::MP4(reason)) => assert_eq!(reason, "No moov atom"),
        _ => panic!("found a moov box"),
    }
}

#[test]
fn score_counts_extension_and_first_box() {
    let ftyp = boxed(b"ftyp", b"M4A ");
    assert_eq!(score("song.m4a", &ftyp), 5);
    assert_eq!(score("song.M4B", &[]), 2);
    assert_eq!(score("a.b.Mp4", &[0; 8]), 2);
    assert_eq!(score("clip.m4v", &ftyp[..7]), 2);
    assert_eq!(score("m4a", &ftyp), 5);
    assert_eq!(score("song.mp3", &ftyp), 3);
    assert_eq!(score("song.m4a.bak", &[]), 0);
    assert_eq!(score("song.m4ax", &[]), 0);
    assert_eq!(score("song.", &[]), 0);
    assert_eq!(score("", &[]), 0);
}
