use std::collections::HashMap;

use ultrastar_txt::ErrorKind;
use ultrastar_txt::FloatNum;
use ultrastar_txt::Header;
use ultrastar_txt::Line;
use ultrastar_txt::Note;
use ultrastar_txt::Source;
use ultrastar_txt::generate_song_txt;
use ultrastar_txt::parse_txt_header_str;
use ultrastar_txt::parse_txt_lines_str;

fn get_simple_txt_str() -> &'static str {
    "#TITLE:Testsong\n#ARTIST:Testartist\n#MP3:Testfile.mp3\n#GAP:666\n#BPM:123\n#GENRE:Music\n#EDITION:Testmusic\n#COVER:Cover.jpg\n#BACKGROUND:BG.jpg\n#VIDEO:DLzxrzFCyOs.mp4\n#VIDEOGAP:777\n#RELATIVE:NO\n#LANGUAGE:en\n#YEAR:1337\n: 0 4 59 Test \n: 4 4 59 I\n: 8 4 59 'm \n* 12 4 59 test\n: 16 4 59 ing.\n- 20\n: 24 4 59 Test \n: 28 4 59 I\n: 32 4 59 'm \nF 36 4 59 test\nF 40 4 59 ing.\nE"
}

fn get_simple_txt_header() -> Header {
    Header {
        artist: String::from("Testartist"),
        title: String::from("Testsong"),
        bpm: FloatNum { repr: String::from("123") },
        audio_path: Source::parse("Testfile.mp3"),
        gap: Some(FloatNum { repr: String::from("666") }),
        relative: Some(false),
        video_path: Some(Source::parse("DLzxrzFCyOs.mp4")),
        cover_path: Some(Source::parse("Cover.jpg")),
        background_path: Some(Source::parse("BG.jpg")),
        video_gap: Some(FloatNum { repr: String::from("777") }),
        genre: Some(String::from("Music")),
        edition: Some(String::from("Testmusic")),
        language: Some(String::from("en")),
        year: Some(1337),
        unknown: None,
    }
}

fn regular(start: i32, duration: i32, pitch: i32, text: &str) -> Note {
    Note::Regular { start, duration, pitch, text: String::from(text) }
}

fn get_simple_txt_lines() -> Vec<Line> {
    vec![
        Line {
            start: 0,
            rel: None,
            notes: vec![
                regular(0, 4, 59, "Test "),
                regular(4, 4, 59, "I"),
                regular(8, 4, 59, "'m "),
                Note::Golden { start: 12, duration: 4, pitch: 59, text: String::from("test") },
                regular(16, 4, 59, "ing."),
            ],
        },
        Line {
            start: 20,
            rel: None,
            notes: vec![
                regular(24, 4, 59, "Test "),
                regular(28, 4, 59, "I"),
                regular(32, 4, 59, "'m "),
                Note::Freestyle { start: 36, duration: 4, pitch: 59, text: String::from("test") },
                Note::Freestyle { start: 40, duration: 4, pitch: 59, text: String::from("ing.") },
            ],
        },
    ]
}

fn unknown_map(header: &Header) -> HashMap<String, String> {
    let mut map = HashMap::new();
    if let Some(pairs) = &header.unknown {
        for (k, v) in pairs.iter() {
            map.insert(k.clone(), v.clone());
        }
    }
    map
}

#[test]
fn simple_txt_header() {
    let txt = get_simple_txt_str();
    let header = get_simple_txt_header();
    assert_eq!(header, parse_txt_header_str(txt).unwrap());
}

#[test]
fn simple_txt_lines() {
    let txt = get_simple_txt_str();
    let lines = get_simple_txt_lines();
    assert_eq!(lines, parse_txt_lines_str(txt).unwrap());
}

#[test]
fn komma_in_float_number() {
    let txt = "#TITLE:Testsong\n#ARTIST:Testartist\n#MP3:Testfile.mp3\n#GAP:66,6\n#BPM:12,3\n#GENRE:Music\n#EDITION:Testmusic\n#COVER:Cover.jpg\n#BACKGROUND:BG.jpg\n#VIDEO:DLzxrzFCyOs.mp4\n#VIDEOGAP:7,77\n#RELATIVE:NO\n#LANGUAGE:en\n#YEAR:1337\n: 0 4 59 Test \n: 4 4 59 I\n: 8 4 59 'm \n* 12 4 59 test\n: 16 4 59 ing.\n- 20\n: 24 4 59 Test \n: 28 4 59 I\n: 32 4 59 'm \nF 36 4 59 test\nF 40 4 59 ing.\nE";
    assert!(parse_txt_header_str(txt).is_ok())
}

#[test]
fn missing_essential_header() {
    let txt = "#TITLE:Testsong\n: 0 4 59 Test\nE";
    match parse_txt_header_str(txt) {
        Err(ultrastar_txt::parser::ErrorKind::MissingEssential(_)) => {}
        r => panic!("unexpected result: {:?}", r),
    }
}

#[test]
fn value_error_in_header_bpm() {
    let txt = "#TITLE:Testsong\n#ARTIST:Testartist\n#MP3:Testfile.mp3\n#GAP:666\n#BPM:12x3\n: 0 4 59 Test\nE";
    match parse_txt_header_str(txt) {
        Err(ultrastar_txt::parser::ErrorKind::ValueError(line, field)) => {
            assert_eq!(line, 5);
            assert_eq!(field, "BPM");
        }
        r => panic!("unexpected result: {:?}", r),
    }
}

#[test]
fn value_error_in_header_gap() {
    let txt = "#TITLE:Testsong\n#ARTIST:Testartist\n#MP3:Testfile.mp3\n#GAP:abc\n#BPM:123\n: 0 4 59 Test\nE";
    match parse_txt_header_str(txt) {
        Err(ultrastar_txt::parser::ErrorKind::ValueError(line, field)) => {
            assert_eq!(line, 4);
            assert_eq!(field, "GAP");
        }
        r => panic!("unexpected result: {:?}", r),
    }
}

#[test]
fn value_error_in_header_videogap() {
    let txt = "#TITLE:Testsong\n#ARTIST:Testartist\n#MP3:Testfile.mp3\n#GAP:666\n#BPM:123\n#VIDEOGAP:x77\n: 0 4 59 Test\nE";
    match parse_txt_header_str(txt) {
        Err(ultrastar_txt::parser::ErrorKind::ValueError(line, field)) => {
            assert_eq!(line, 6);
            assert_eq!(field, "VIDEOGAP");
        }
        r => panic!("unexpected result: {:?}", r),
    }
}

#[test]
fn value_error_in_header_year() {
    let txt = "#TITLE:Testsong\n#ARTIST:Testartist\n#MP3:Testfile.mp3\n#GAP:666\n#BPM:123\n#VIDEOGAP:777\n#YEAR:199x\n: 0 4 59 Test\nE";
    match parse_txt_header_str(txt) {
        Err(ultrastar_txt::parser::ErrorKind::ValueError(line, field)) => {
            assert_eq!(line, 7);
            assert_eq!(field, "YEAR");
        }
        r => panic!("unexpected result: {:?}", r),
    }
}

#[test]
fn unknown_note_type() {
    let txt = "#TITLE:Testsong\n#ARTIST:Testartist\n#MP3:Testfile.mp3\n#GAP:666\n#BPM:123\n: 0 4 59 ok\nX 1 2 3 bad\nE";
    match parse_txt_lines_str(txt) {
        Err(ultrastar_txt::parser::ErrorKind::UnknownNoteType(line)) => assert_eq!(line, 7),
        r => panic!("unexpected result: {:?}", r),
    }
}

#[test]
fn garbage_line() {
    let txt = "#TITLE:Testsong\n#ARTIST:Testartist\n#MP3:Testfile.mp3\n#GAP:666\n#BPM:123\n: 0 4 59 ok\ngarbage\nE";
    match parse_txt_lines_str(txt) {
        Err(ultrastar_txt::parser::ErrorKind::ParserFailure(line)) => assert_eq!(line, 7),
        r => panic!("unexpected result: {:?}", r),
    }
}

#[test]
fn duplicate_header_title() {
    let txt = "#TITLE:Testsong\n#TITLE:Testsong\n#ARTIST:Testartist\n#MP3:Testfile.mp3\n#GAP:666\n#BPM:123\n#GENRE:Music\n#EDITION:Testmusic\n#COVER:Cover.jpg\n#BACKGROUND:BG.jpg\n#VIDEO:DLzxrzFCyOs.mp4\n#VIDEOGAP:777\n#RELATIVE:NO\n#LANGUAGE:en\n#YEAR:1337\n: 0 4 59 Test \n: 4 4 59 I\n: 8 4 59 'm \n* 12 4 59 test\n: 16 4 59 ing.\n- 20\n: 24 4 59 Test \n: 28 4 59 I\n: 32 4 59 'm \nF 36 4 59 test\nF 40 4 59 ing.\nE";
    match parse_txt_header_str(txt) {
        Err(ultrastar_txt::parser::ErrorKind::DuplicateHeader(line, tag)) => {
            assert_eq!(line, 2);
            assert_eq!(tag, "TITLE");
        }
        r => panic!("unexpected result: {:?}", r),
    }
}

#[test]
fn duplicate_header_artist() {
    let txt = "#TITLE:Testsong\n#ARTIST:Testartist\n#ARTIST:Testartist\n#MP3:Testfile.mp3\n#GAP:666\n#BPM:123\n#GENRE:Music\n#EDITION:Testmusic\n#COVER:Cover.jpg\n#BACKGROUND:BG.jpg\n#VIDEO:DLzxrzFCyOs.mp4\n#VIDEOGAP:777\n#RELATIVE:NO\n#LANGUAGE:en\n#YEAR:1337\n: 0 4 59 Test \n: 4 4 59 I\n: 8 4 59 'm \n* 12 4 59 test\n: 16 4 59 ing.\n- 20\n: 24 4 59 Test \n: 28 4 59 I\n: 32 4 59 'm \nF 36 4 59 test\nF 40 4 59 ing.\nE";
    match parse_txt_header_str(txt) {
        Err(ultrastar_txt::parser::ErrorKind::DuplicateHeader(line, tag)) => {
            assert_eq!(line, 3);
            assert_eq!(tag, "ARTIST");
        }
        r => panic!("unexpected result: {:?}", r),
    }
}

#[test]
fn duplicate_header_mp3() {
    let txt = "#TITLE:Testsong\n#ARTIST:Testartist\n#MP3:Testfile.mp3\n#MP3:Testfile.mp3\n#GAP:666\n#BPM:123\n#GENRE:Music\n#EDITION:Testmusic\n#COVER:Cover.jpg\n#BACKGROUND:BG.jpg\n#VIDEO:DLzxrzFCyOs.mp4\n#VIDEOGAP:777\n#RELATIVE:NO\n#LANGUAGE:en\n#YEAR:1337\n: 0 4 59 Test \n: 4 4 59 I\n: 8 4 59 'm \n* 12 4 59 test\n: 16 4 59 ing.\n- 20\n: 24 4 59 Test \n: 28 4 59 I\n: 32 4 59 'm \nF 36 4 59 test\nF 40 4 59 ing.\nE";
    match parse_txt_header_str(txt) {
        Err(ultrastar_txt::parser::ErrorKind::DuplicateHeader(line, tag)) => {
            assert_eq!(line, 4);
            assert_eq!(tag, "MP3");
        }
        r => panic!("unexpected result: {:?}", r),
    }
}

#[test]
fn duplicate_header_gap() {
    let txt = "#TITLE:Testsong\n#ARTIST:Testartist\n#MP3:Testfile.mp3\n#GAP:666\n#GAP:666\n#BPM:123\n#GENRE:Music\n#EDITION:Testmusic\n#COVER:Cover.jpg\n#BACKGROUND:BG.jpg\n#VIDEO:DLzxrzFCyOs.mp4\n#VIDEOGAP:777\n#RELATIVE:NO\n#LANGUAGE:en\n#YEAR:1337\n: 0 4 59 Test \n: 4 4 59 I\n: 8 4 59 'm \n* 12 4 59 test\n: 16 4 59 ing.\n- 20\n: 24 4 59 Test \n: 28 4 59 I\n: 32 4 59 'm \nF 36 4 59 test\nF 40 4 59 ing.\nE";
    match parse_txt_header_str(txt) {
        Err(ultrastar_txt::parser::ErrorKind::DuplicateHeader(line, tag)) => {
            assert_eq!(line, 5);
            assert_eq!(tag, "GAP");
        }
        r => panic!("unexpected result: {:?}", r),
    }
}

#[test]
fn duplicate_header_bpm() {
    let txt = "#TITLE:Testsong\n#ARTIST:Testartist\n#MP3:Testfile.mp3\n#GAP:666\n#BPM:123\n#BPM:123\n#GENRE:Music\n#EDITION:Testmusic\n#COVER:Cover.jpg\n#BACKGROUND:BG.jpg\n#VIDEO:DLzxrzFCyOs.mp4\n#VIDEOGAP:777\n#RELATIVE:NO\n#LANGUAGE:en\n#YEAR:1337\n: 0 4 59 Test \n: 4 4 59 I\n: 8 4 59 'm \n* 12 4 59 test\n: 16 4 59 ing.\n- 20\n: 24 4 59 Test \n: 28 4 59 I\n: 32 4 59 'm \nF 36 4 59 test\nF 40 4 59 ing.\nE";
    match parse_txt_header_str(txt) {
        Err(ultrastar_txt::parser::ErrorKind::DuplicateHeader(line, tag)) => {
            assert_eq!(line, 6);
            assert_eq!(tag, "BPM");
        }
        r => panic!("unexpected result: {:?}", r),
    }
}

#[test]
fn duplicate_header_genre() {
    let txt = "#TITLE:Testsong\n#ARTIST:Testartist\n#MP3:Testfile.mp3\n#GAP:666\n#BPM:123\n#GENRE:Music\n#GENRE:Music\n#EDITION:Testmusic\n#COVER:Cover.jpg\n#BACKGROUND:BG.jpg\n#VIDEO:DLzxrzFCyOs.mp4\n#VIDEOGAP:777\n#RELATIVE:NO\n#LANGUAGE:en\n#YEAR:1337\n: 0 4 59 Test \n: 4 4 59 I\n: 8 4 59 'm \n* 12 4 59 test\n: 16 4 59 ing.\n- 20\n: 24 4 59 Test \n: 28 4 59 I\n: 32 4 59 'm \nF 36 4 59 test\nF 40 4 59 ing.\nE";
    match parse_txt_header_str(txt) {
        Err(ultrastar_txt::parser::ErrorKind::DuplicateHeader(line, tag)) => {
            assert_eq!(line, 7);
            assert_eq!(tag, "GENRE");
        }
        r => panic!("unexpected result: {:?}", r),
    }
}

#[test]
fn duplicate_header_edition() {
    let txt = "#TITLE:Testsong\n#ARTIST:Testartist\n#MP3:Testfile.mp3\n#GAP:666\n#BPM:123\n#GENRE:Music\n#EDITION:Testmusic\n#EDITION:Testmusic\n#COVER:Cover.jpg\n#BACKGROUND:BG.jpg\n#VIDEO:DLzxrzFCyOs.mp4\n#VIDEOGAP:777\n#RELATIVE:NO\n#LANGUAGE:en\n#YEAR:1337\n: 0 4 59 Test \n: 4 4 59 I\n: 8 4 59 'm \n* 12 4 59 test\n: 16 4 59 ing.\n- 20\n: 24 4 59 Test \n: 28 4 59 I\n: 32 4 59 'm \nF 36 4 59 test\nF 40 4 59 ing.\nE";
    match parse_txt_header_str(txt) {
        Err(ultrastar_txt::parser::ErrorKind::DuplicateHeader(line, tag)) => {
            assert_eq!(line, 8);
            assert_eq!(tag, "EDITION");
        }
        r => panic!("unexpected result: {:?}", r),
    }
}

#[test]
fn duplicate_header_cover() {
    let txt = "#TITLE:Testsong\n#ARTIST:Testartist\n#MP3:Testfile.mp3\n#GAP:666\n#BPM:123\n#GENRE:Music\n#EDITION:Testmusic\n#COVER:Cover.jpg\n#COVER:Cover.jpg\n#BACKGROUND:BG.jpg\n#VIDEO:DLzxrzFCyOs.mp4\n#VIDEOGAP:777\n#RELATIVE:NO\n#LANGUAGE:en\n#YEAR:1337\n: 0 4 59 Test \n: 4 4 59 I\n: 8 4 59 'm \n* 12 4 59 test\n: 16 4 59 ing.\n- 20\n: 24 4 59 Test \n: 28 4 59 I\n: 32 4 59 'm \nF 36 4 59 test\nF 40 4 59 ing.\nE";
    match parse_txt_header_str(txt) {
        Err(ultrastar_txt::parser::ErrorKind::DuplicateHeader(line, tag)) => {
            assert_eq!(line, 9);
            assert_eq!(tag, "COVER");
        }
        r => panic!("unexpected result: {:?}", r),
    }
}

#[test]
fn duplicate_header_background() {
    let txt = "#TITLE:Testsong\n#ARTIST:Testartist\n#MP3:Testfile.mp3\n#GAP:666\n#BPM:123\n#GENRE:Music\n#EDITION:Testmusic\n#COVER:Cover.jpg\n#BACKGROUND:BG.jpg\n#BACKGROUND:BG.jpg\n#VIDEO:DLzxrzFCyOs.mp4\n#VIDEOGAP:777\n#RELATIVE:NO\n#LANGUAGE:en\n#YEAR:1337\n: 0 4 59 Test \n: 4 4 59 I\n: 8 4 59 'm \n* 12 4 59 test\n: 16 4 59 ing.\n- 20\n: 24 4 59 Test \n: 28 4 59 I\n: 32 4 59 'm \nF 36 4 59 test\nF 40 4 59 ing.\nE";
    match parse_txt_header_str(txt) {
        Err(ultrastar_txt::parser::ErrorKind::DuplicateHeader(line, tag)) => {
            assert_eq!(line, 10);
            assert_eq!(tag, "BACKGROUND");
        }
        r => panic!("unexpected result: {:?}", r),
    }
}

#[test]
fn duplicate_header_video() {
    let txt = "#TITLE:Testsong\n#ARTIST:Testartist\n#MP3:Testfile.mp3\n#GAP:666\n#BPM:123\n#GENRE:Music\n#EDITION:Testmusic\n#COVER:Cover.jpg\n#BACKGROUND:BG.jpg\n#VIDEO:DLzxrzFCyOs.mp4\n#VIDEO:DLzxrzFCyOs.mp4\n#VIDEOGAP:777\n#RELATIVE:NO\n#LANGUAGE:en\n#YEAR:1337\n: 0 4 59 Test \n: 4 4 59 I\n: 8 4 59 'm \n* 12 4 59 test\n: 16 4 59 ing.\n- 20\n: 24 4 59 Test \n: 28 4 59 I\n: 32 4 59 'm \nF 36 4 59 test\nF 40 4 59 ing.\nE";
    match parse_txt_header_str(txt) {
        Err(ultrastar_txt::parser::ErrorKind::DuplicateHeader(line, tag)) => {
            assert_eq!(line, 11);
            assert_eq!(tag, "VIDEO");
        }
        r => panic!("unexpected result: {:?}", r),
    }
}

#[test]
fn duplicate_header_videogap() {
    let txt = "#TITLE:Testsong\n#ARTIST:Testartist\n#MP3:Testfile.mp3\n#GAP:666\n#BPM:123\n#GENRE:Music\n#EDITION:Testmusic\n#COVER:Cover.jpg\n#BACKGROUND:BG.jpg\n#VIDEO:DLzxrzFCyOs.mp4\n#VIDEOGAP:777\n#VIDEOGAP:777\n#RELATIVE:NO\n#LANGUAGE:en\n#YEAR:1337\n: 0 4 59 Test \n: 4 4 59 I\n: 8 4 59 'm \n* 12 4 59 test\n: 16 4 59 ing.\n- 20\n: 24 4 59 Test \n: 28 4 59 I\n: 32 4 59 'm \nF 36 4 59 test\nF 40 4 59 ing.\nE";
    match parse_txt_header_str(txt) {
        Err(ultrastar_txt::parser::ErrorKind::DuplicateHeader(line, tag)) => {
            assert_eq!(line, 12);
            assert_eq!(tag, "VIDEOGAP");
        }
        r => panic!("unexpected result: {:?}", r),
    }
}

#[test]
fn duplicate_header_relative() {
    let txt = "#TITLE:Testsong\n#ARTIST:Testartist\n#MP3:Testfile.mp3\n#GAP:666\n#BPM:123\n#GENRE:Music\n#EDITION:Testmusic\n#COVER:Cover.jpg\n#BACKGROUND:BG.jpg\n#VIDEO:DLzxrzFCyOs.mp4\n#VIDEOGAP:777\n#RELATIVE:NO\n#RELATIVE:NO\n#LANGUAGE:en\n#YEAR:1337\n: 0 4 59 Test \n: 4 4 59 I\n: 8 4 59 'm \n* 12 4 59 test\n: 16 4 59 ing.\n- 20\n: 24 4 59 Test \n: 28 4 59 I\n: 32 4 59 'm \nF 36 4 59 test\nF 40 4 59 ing.\nE";
    match parse_txt_header_str(txt) {
        Err(ultrastar_txt::parser::ErrorKind::DuplicateHeader(line, tag)) => {
            assert_eq!(line, 13);
            assert_eq!(tag, "RELATIVE");
        }
        r => panic!("unexpected result: {:?}", r),
    }
}

#[test]
fn duplicate_header_language() {
    let txt = "#TITLE:Testsong\n#ARTIST:Testartist\n#MP3:Testfile.mp3\n#GAP:666\n#BPM:123\n#GENRE:Music\n#EDITION:Testmusic\n#COVER:Cover.jpg\n#BACKGROUND:BG.jpg\n#VIDEO:DLzxrzFCyOs.mp4\n#VIDEOGAP:777\n#RELATIVE:NO\n#LANGUAGE:en\n#LANGUAGE:en\n#YEAR:1337\n: 0 4 59 Test \n: 4 4 59 I\n: 8 4 59 'm \n* 12 4 59 test\n: 16 4 59 ing.\n- 20\n: 24 4 59 Test \n: 28 4 59 I\n: 32 4 59 'm \nF 36 4 59 test\nF 40 4 59 ing.\nE";
    match parse_txt_header_str(txt) {
        Err(ultrastar_txt::parser::ErrorKind::DuplicateHeader(line, tag)) => {
            assert_eq!(line, 14);
            assert_eq!(tag, "LANGUAGE");
        }
        r => panic!("unexpected result: {:?}", r),
    }
}

#[test]
fn duplicate_header_unknown() {
    let txt = "#TITLE:Testsong\n#ARTIST:Testartist\n#MP3:Testfile.mp3\n#GAP:666\n#BPM:123\n#GENRE:Music\n#EDITION:Testmusic\n#COVER:Cover.jpg\n#BACKGROUND:BG.jpg\n#VIDEO:DLzxrzFCyOs.mp4\n#VIDEOGAP:777\n#RELATIVE:NO\n#LANGUAGE:en\n#YEAR:1337\n#SOMETAG:a\n#SOMETAG:b\n: 0 4 59 Test \n: 4 4 59 I\n: 8 4 59 'm \n* 12 4 59 test\n: 16 4 59 ing.\n- 20\n: 24 4 59 Test \n: 28 4 59 I\n: 32 4 59 'm \nF 36 4 59 test\nF 40 4 59 ing.\nE";
    match parse_txt_header_str(txt) {
        Err(ultrastar_txt::parser::ErrorKind::DuplicateHeader(line, tag)) => {
            assert_eq!(line, 16);
            assert_eq!(tag, "UNKNOWN");
        }
        r => panic!("unexpected result: {:?}", r),
    }
}

#[test]
fn missing_end_indicator() {
    let txt = "#TITLE:Testsong\n#ARTIST:Testartist\n#MP3:Testfile.mp3\n#GAP:666\n#BPM:123\n#GENRE:Music\n#EDITION:Testmusic\n#COVER:Cover.jpg\n#BACKGROUND:BG.jpg\n#VIDEO:DLzxrzFCyOs.mp4\n#VIDEOGAP:777\n#RELATIVE:NO\n#LANGUAGE:en\n#YEAR:1337\n: 0 4 59 Test \n: 4 4 59 I\n: 8 4 59 'm \n* 12 4 59 test\n: 16 4 59 ing.\n- 20\n: 24 4 59 Test \n: 28 4 59 I\n: 32 4 59 'm \nF 36 4 59 test\nF 40 4 59 ing.";
    match parse_txt_lines_str(txt) {
        Err(ultrastar_txt::parser::ErrorKind::MissingEndIndicator) => {}
        r => panic!("unexpected result: {:?}", r),
    }
}

#[test]
fn survive_nonstandard_tags() {
    let txt = "#TITLE:Testsong\n#ARTIST:Testartist\n#MP3:Testfile.mp3\n#GAP:666\n#BPM:123\n#GENRE:Music\n#EDITION:Testmusic\n#COVER:Cover.jpg\n#BACKGROUND:BG.jpg\n#VIDEO:DLzxrzFCyOs.mp4\n#VIDEOGAP:777\n#RELATIVE:NO\n#LANGUAGE:en\n#YEAR:1337\n#MedleyStartBeat:550\n#MedleyEndBeat:863\n: 0 4 59 Test \n: 4 4 59 I\n: 8 4 59 'm \n* 12 4 59 test\n: 16 4 59 ing.\n- 20\n: 24 4 59 Test \n: 28 4 59 I\n: 32 4 59 'm \nF 36 4 59 test\nF 40 4 59 ing.\nE";
    let parsed = parse_txt_header_str(txt).unwrap();
    let map = unknown_map(&parsed);
    let mut expected_map = HashMap::new();
    expected_map.insert(String::from("MedleyStartBeat"), String::from("550"));
    expected_map.insert(String::from("MedleyEndBeat"), String::from("863"));
    assert_eq!(map, expected_map);
    let mut stripped = parsed.clone();
    stripped.unknown = None;
    assert_eq!(stripped, get_simple_txt_header());
}

#[test]
fn dash_in_lyrics() {
    let txt = "#TITLE:T\n: 0 4 59 Test-y \n: 4 4 59 -\nE";
    assert!(parse_txt_lines_str(txt).is_ok());
}

#[test]
fn empty_note_text() {
    let txt = ": 0 4 59 \n: 4 4 59\nE";
    assert!(parse_txt_lines_str(txt).is_ok());
}

#[test]
fn survive_duett_tags() {
    let txt = "P1\n: 0 4 59 Test\nP 2\n: 4 4 59 Test\nE";
    assert!(parse_txt_lines_str(txt).is_ok());
}

#[test]
fn negative_pitch_in_lines() {
    let txt = ": 0 4 -59 Test\nE";
    assert!(parse_txt_lines_str(txt).is_ok());
}

#[test]
fn negative_start_in_lines() {
    let txt = ": -4 4 59 Test\nE";
    assert!(parse_txt_lines_str(txt).is_ok());
}

#[test]
fn negative_line_break() {
    let txt = ": 0 4 59 a\n- -4\n: 2 2 2 b\nE";
    assert!(parse_txt_lines_str(txt).is_ok());
}

#[test]
fn missing_space_in_line_break() {
    let txt = ": 0 4 59 a\n-20\n: 24 4 59 b\nE";
    assert!(parse_txt_lines_str(txt).is_ok());
}

#[test]
fn allow_multiple_spaces_between_line_values() {
    let txt = "#TITLE:Testsong\n#ARTIST:Testartist\n#MP3:Testfile.mp3\n#GAP:666\n#BPM:123\n#GENRE:Music\n#EDITION:Testmusic\n#COVER:Cover.jpg\n#BACKGROUND:BG.jpg\n#VIDEO:DLzxrzFCyOs.mp4\n#VIDEOGAP:777\n#RELATIVE:NO\n#LANGUAGE:en\n#YEAR:1337\n:   0  4  59 Test \n:  4 4  59 I\n: 8  4 59 'm \n*  12  4  59 test\n: 16 4 59 ing.\n- 20\n:  24  4 59 Test \n: 28 4  59 I\n: 32 4 59 'm \nF 36  4 59 test\nF 40 4  59 ing.\nE";
    let lines = get_simple_txt_lines();
    assert_eq!(lines, parse_txt_lines_str(txt).unwrap());
}

#[test]
fn lower_case_relative() {
    let txt = "#TITLE:T\n#ARTIST:A\n#MP3:m.mp3\n#BPM:123\n#RELATIVE:yes\nE";
    assert!(parse_txt_header_str(txt).is_ok());
}

#[test]
fn unknown_tags() {
    let txt = "#TITLE:Testsong\n#ARTIST:Testartist\n#MP3:Testfile.mp3\n#GAP:666\n#BPM:123\n#GENRE:Music\n#EDITION:Testmusic\n#COVER:Cover.jpg\n#BACKGROUND:BG.jpg\n#VIDEO:DLzxrzFCyOs.mp4\n#VIDEOGAP:777\n#RELATIVE:NO\n#LANGUAGE:en\n#YEAR:1337\n#UNKNOWN:tag\n#WHAT:is this\n: 0 4 59 Test \n: 4 4 59 I\n: 8 4 59 'm \n* 12 4 59 test\n: 16 4 59 ing.\n- 20\n: 24 4 59 Test \n: 28 4 59 I\n: 32 4 59 'm \nF 36 4 59 test\nF 40 4 59 ing.\nE";
    let parsed = parse_txt_header_str(txt).unwrap();
    let map = unknown_map(&parsed);
    let mut expected_map = HashMap::new();
    expected_map.insert(String::from("UNKNOWN"), String::from("tag"));
    expected_map.insert(String::from("WHAT"), String::from("is this"));
    assert_eq!(map, expected_map);
    let mut stripped = parsed.clone();
    stripped.unknown = None;
    assert_eq!(stripped, get_simple_txt_header());
}

#[test]
fn empty_optional_tags() {
    let txt = "#TITLE:Testsong\n#ARTIST:Testartist\n#MP3:Testfile.mp3\n#GAP:666\n#BPM:123\n#GENRE:\n#EDITION:\n#COVER:\n#BACKGROUND:\n#VIDEO:\n#VIDEOGAP:\n#RELATIVE:\n#LANGUAGE:\n#YEAR:\n: 0 4 59 Test \n: 4 4 59 I\n: 8 4 59 'm \n* 12 4 59 test\n: 16 4 59 ing.\n- 20\n: 24 4 59 Test \n: 28 4 59 I\n: 32 4 59 'm \nF 36 4 59 test\nF 40 4 59 ing.\nE";
    let mut header = get_simple_txt_header();
    header.relative = None;
    header.video_path = None;
    header.cover_path = None;
    header.background_path = None;
    header.video_gap = None;
    header.genre = None;
    header.edition = None;
    header.language = None;
    header.year = None;
    header.unknown = None;
    assert_eq!(parse_txt_header_str(txt).unwrap(), header);
}

#[test]
fn generate_and_reparse_song() {
    let orig_txt_header = get_simple_txt_header();
    let orig_txt_lines = get_simple_txt_lines();

    let generated_txt = generate_song_txt(&orig_txt_header, &orig_txt_lines).unwrap();
    let parsed_header = parse_txt_header_str(generated_txt.as_ref()).unwrap();
    let parsed_lines = parse_txt_lines_str(generated_txt.as_ref()).unwrap();

    assert_eq!(parsed_header, orig_txt_header);
    assert_eq!(parsed_lines, orig_txt_lines);
}

#[test]
fn relative_line_breaks() {
    let txt = "#TITLE:T\n: 0 4 59 a\n- 20 24\n: 2 2 2 b\nE";
    let lines = parse_txt_lines_str(txt).unwrap();
    assert_eq!(lines[1].rel.unwrap(), 24);
}

#[test]
fn remote_url_audio() {
    let txt = "#TITLE:Testsong\n#ARTIST:Testartist\n#MP3:https://www.example.com/Testfile.mp3\n#GAP:666\n#BPM:123\n#GENRE:Music\n#EDITION:Testmusic\n#COVER:Cover.jpg\n#BACKGROUND:BG.jpg\n#VIDEO:DLzxrzFCyOs.mp4\n#VIDEOGAP:777\n#RELATIVE:NO\n#LANGUAGE:en\n#YEAR:1337\n: 0 4 59 Test \n: 4 4 59 I\n: 8 4 59 'm \n* 12 4 59 test\n: 16 4 59 ing.\n- 20\n: 24 4 59 Test \n: 28 4 59 I\n: 32 4 59 'm \nF 36 4 59 test\nF 40 4 59 ing.\nE";
    let mut header = get_simple_txt_header();
    header.audio_path = Source::parse("https://www.example.com/Testfile.mp3");
    assert_eq!(parse_txt_header_str(txt).unwrap(), header);
    assert_eq!(
        Source::parse("https://www.example.com/Testfile.mp3"),
        Source::Remote(String::from("https://www.example.com/Testfile.mp3"))
    );
}
