use ultrastar_txt::ErrorKind;
use ultrastar_txt::FloatNum;
use ultrastar_txt::Header;
use ultrastar_txt::Line;
use ultrastar_txt::Note;
use ultrastar_txt::Source;
use ultrastar_txt::generate_song_txt;
use ultrastar_txt::parse_txt_header_str;
use ultrastar_txt::parse_txt_lines_str;

fn minimal_header_txt() -> &'static str {
    "#TITLE:T\n#ARTIST:A\n#MP3:m.mp3\n#BPM:123\n"
}

// The aggregate-reporting policy: a header with only TITLE present lists
// every other mandatory field, in the fixed order.
#[test]
fn missing_essential_lists_all_fields_in_order() {
    let txt = "#TITLE:Testsong\nE";
    match parse_txt_header_str(txt) {
        Err(ErrorKind::MissingEssential(fields)) => {
            assert_eq!(
                fields,
                vec![
                    String::from("Artist"),
                    String::from("BPM"),
                    String::from("Audio Path")
                ]
            );
        }
        r => panic!("unexpected result: {:?}", r),
    }
}

#[test]
fn empty_input_missing_everything() {
    match parse_txt_header_str("") {
        Err(ErrorKind::MissingEssential(fields)) => {
            assert_eq!(fields.len(), 4);
            assert_eq!(fields[0], "Title");
        }
        r => panic!("unexpected result: {:?}", r),
    }
    match parse_txt_lines_str("") {
        Err(ErrorKind::MissingEndIndicator) => {}
        r => panic!("unexpected result: {:?}", r),
    }
}

// Classification priority: a line that matches both the note pattern and a
// break pattern is read as a note, so its unknown type symbol is the error.
#[test]
fn note_pattern_beats_break_pattern() {
    let txt = ": 0 4 59 a\n-1 2 3 x\nE";
    match parse_txt_lines_str(txt) {
        Err(ErrorKind::UnknownNoteType(line)) => assert_eq!(line, 2),
        r => panic!("unexpected result: {:?}", r),
    }
}

// Classification priority: a line that matches both the note pattern and
// the player change pattern is read as a note.
#[test]
fn note_pattern_beats_duet_pattern() {
    let txt = "P 1 2 3 singer\nE";
    match parse_txt_lines_str(txt) {
        Err(ErrorKind::UnknownNoteType(line)) => assert_eq!(line, 1),
        r => panic!("unexpected result: {:?}", r),
    }
}

#[test]
fn rap_and_rap_golden_notes_parse() {
    let txt = "R 0 4 59 rap\nG 4 4 59 gold\nE";
    let lines = parse_txt_lines_str(txt).unwrap();
    assert_eq!(lines.len(), 1);
    assert_eq!(
        lines[0].notes[0],
        Note::Rap { start: 0, duration: 4, pitch: 59, text: String::from("rap") }
    );
    assert_eq!(
        lines[0].notes[1],
        Note::RapGolden { start: 4, duration: 4, pitch: 59, text: String::from("gold") }
    );
}

#[test]
fn variable_bpm_not_implemented() {
    let txt = "B 1 2\nE";
    match parse_txt_lines_str(txt) {
        Err(ErrorKind::NotImplemented(line, feature)) => {
            assert_eq!(line, 1);
            assert_eq!(feature, "variable bpm");
        }
        r => panic!("unexpected result: {:?}", r),
    }
}

#[test]
fn empty_physical_line_fails() {
    let txt = "\nE";
    match parse_txt_lines_str(txt) {
        Err(ErrorKind::ParserFailure(line)) => assert_eq!(line, 1),
        r => panic!("unexpected result: {:?}", r),
    }
}

#[test]
fn negative_duration_is_value_error() {
    let txt = ": 0 -4 59 x\nE";
    match parse_txt_lines_str(txt) {
        Err(ErrorKind::ValueError(line, field)) => {
            assert_eq!(line, 1);
            assert_eq!(field, "note duration");
        }
        r => panic!("unexpected result: {:?}", r),
    }
}

#[test]
fn note_start_overflow_is_value_error() {
    let txt = ": 99999999999 4 59 x\nE";
    match parse_txt_lines_str(txt) {
        Err(ErrorKind::ValueError(line, field)) => {
            assert_eq!(line, 1);
            assert_eq!(field, "note start");
        }
        r => panic!("unexpected result: {:?}", r),
    }
}

#[test]
fn player_out_of_range_is_value_error() {
    let txt = "P4\nE";
    match parse_txt_lines_str(txt) {
        Err(ErrorKind::ValueError(line, field)) => {
            assert_eq!(line, 1);
            assert_eq!(field, "player change");
        }
        r => panic!("unexpected result: {:?}", r),
    }
}

#[test]
fn line_break_overflow_is_value_error() {
    let txt = ": 0 4 59 x\n- 99999999999\nE";
    match parse_txt_lines_str(txt) {
        Err(ErrorKind::ValueError(line, field)) => {
            assert_eq!(line, 2);
            assert_eq!(field, "line start");
        }
        r => panic!("unexpected result: {:?}", r),
    }
}

#[test]
fn relative_value_error() {
    let txt = "#TITLE:T\n#ARTIST:A\n#MP3:m.mp3\n#BPM:123\n#RELATIVE:maybe\n";
    match parse_txt_header_str(txt) {
        Err(ErrorKind::ValueError(line, field)) => {
            assert_eq!(line, 5);
            assert_eq!(field, "RELATIVE");
        }
        r => panic!("unexpected result: {:?}", r),
    }
}

// The comma leniency stores the normalized text: the comma becomes a dot.
#[test]
fn comma_becomes_dot_in_stored_value() {
    let txt = "#TITLE:T\n#ARTIST:A\n#MP3:m.mp3\n#BPM:12,5\n";
    let header = parse_txt_header_str(txt).unwrap();
    assert_eq!(header.bpm, FloatNum { repr: String::from("12.5") });
}

#[test]
fn float_grammar_accepts_exponents_and_words() {
    for v in ["1e3", "-2.5E-2", ".5", "7.", "inf", "INFINITY", "nan", "+3"] {
        let txt = format!("#TITLE:T\n#ARTIST:A\n#MP3:m.mp3\n#BPM:{}\n", v);
        assert!(parse_txt_header_str(txt.as_str()).is_ok(), "rejected {}", v);
    }
    for v in ["", " 1", "1 ", "1.2.3", "e3", "1e", "--1", "0x10"] {
        let txt = format!("#TITLE:T\n#ARTIST:A\n#MP3:m.mp3\n#BPM:{}\n", v);
        if v.is_empty() {
            // an empty value is skipped, so BPM stays missing
            assert!(matches!(
                parse_txt_header_str(txt.as_str()),
                Err(ErrorKind::MissingEssential(_))
            ));
        } else {
            assert!(
                matches!(parse_txt_header_str(txt.as_str()), Err(ErrorKind::ValueError(4, _))),
                "accepted {}",
                v
            );
        }
    }
}

#[test]
fn year_accepts_plus_sign() {
    let txt = "#TITLE:T\n#ARTIST:A\n#MP3:m.mp3\n#BPM:123\n#YEAR:+1999\n";
    let header = parse_txt_header_str(txt).unwrap();
    assert_eq!(header.year, Some(1999));
}

// The exact generated text of a small song.
#[test]
fn generator_exact_output() {
    let header = Header {
        artist: String::from("A"),
        title: String::from("T"),
        bpm: FloatNum { repr: String::from("123") },
        audio_path: Source::Local(String::from("m.mp3")),
        gap: None,
        cover_path: None,
        background_path: None,
        video_path: None,
        video_gap: None,
        genre: None,
        edition: None,
        language: None,
        year: Some(1999),
        relative: Some(true),
        unknown: Some(vec![(String::from("X"), String::from("y"))]),
    };
    let lines = vec![
        Line {
            start: 0,
            rel: None,
            notes: vec![
                Note::Regular { start: 0, duration: 4, pitch: -2, text: String::from("hi") },
                Note::PlayerChange { player: 2 },
            ],
        },
        Line {
            start: 8,
            rel: Some(4),
            notes: vec![Note::Rap { start: 8, duration: 1, pitch: 0, text: String::from("") }],
        },
    ];
    let txt = generate_song_txt(&header, &lines).unwrap();
    assert_eq!(
        txt,
        "#TITLE:T\n#ARTIST:A\n#MP3:m.mp3\n#BPM:123\n#YEAR:1999\n#RELATIVE:YES\n#X:y\n: 0 4 -2 hi\nP2\n- 8 4\nR 8 1 0 \nE"
    );
}

// Round trip through generation and reparsing, with every feature on.
#[test]
fn generate_and_reparse_full_song() {
    let header = Header {
        artist: String::from("Artist name"),
        title: String::from("Title name"),
        bpm: FloatNum { repr: String::from("220.5") },
        audio_path: Source::Remote(String::from("https://example.com/a.mp3")),
        gap: Some(FloatNum { repr: String::from("12.5") }),
        cover_path: Some(Source::Local(String::from("c.jpg"))),
        background_path: Some(Source::Local(String::from("b.jpg"))),
        video_path: Some(Source::Local(String::from("v.mp4"))),
        video_gap: Some(FloatNum { repr: String::from("3") }),
        genre: Some(String::from("Pop")),
        edition: Some(String::from("Ed")),
        language: Some(String::from("en")),
        year: Some(2001),
        relative: Some(true),
        unknown: Some(vec![
            (String::from("MedleyStartBeat"), String::from("5")),
            (String::from("P1"), String::from("Singer one")),
        ]),
    };
    let lines = vec![
        Line {
            start: 0,
            rel: None,
            notes: vec![
                Note::Regular { start: 0, duration: 1, pitch: 5, text: String::from("a b ") },
                Note::Golden { start: 2, duration: 1, pitch: -5, text: String::from("c") },
                Note::Freestyle { start: 4, duration: 0, pitch: 0, text: String::from("~") },
            ],
        },
        Line {
            start: -3,
            rel: Some(-7),
            notes: vec![
                Note::PlayerChange { player: 3 },
                Note::Rap { start: 9, duration: 2, pitch: 1, text: String::from("r") },
                Note::RapGolden { start: 12, duration: 2, pitch: 1, text: String::from("g") },
            ],
        },
    ];
    let txt = generate_song_txt(&header, &lines).unwrap();
    assert_eq!(parse_txt_header_str(txt.as_str()).unwrap(), header);
    assert_eq!(parse_txt_lines_str(txt.as_str()).unwrap(), lines);
}

// The URL branch normalizes: a bare authority gains its slash. A wrapper
// that handed its argument back unchanged would fail this.
#[test]
fn url_parse_normalizes() {
    match Source::parse("https://example.com") {
        Source::Remote(u) => assert_eq!(u, "https://example.com/"),
        s => panic!("unexpected source: {:?}", s),
    }
    match Source::parse("not a url") {
        Source::Local(p) => assert_eq!(p, "not a url"),
        s => panic!("unexpected source: {:?}", s),
    }
}

#[test]
fn source_to_str_returns_text() {
    let s = Source::parse("file.mp3");
    assert_eq!(s.to_str(), Some("file.mp3"));
    let r = Source::Remote(String::from("https://example.com/x"));
    assert_eq!(r.to_str(), Some("https://example.com/x"));
}

#[test]
fn note_getters() {
    let n = Note::Golden { start: 1, duration: 2, pitch: 3, text: String::from("x") };
    assert_eq!(n.start(), Some(1));
    assert_eq!(n.duration(), Some(2));
    assert_eq!(n.pitch(), Some(3));
    assert_eq!(n.text(), Some("x"));
    assert_eq!(n.player(), None);
    let p = Note::PlayerChange { player: 2 };
    assert_eq!(p.start(), None);
    assert_eq!(p.duration(), None);
    assert_eq!(p.pitch(), None);
    assert_eq!(p.text(), None);
    assert_eq!(p.player(), Some(2));
}

// The terminator check fires before the note pattern: any line starting
// with E ends the song body.
#[test]
fn terminator_wins_over_note_pattern() {
    let txt = ": 0 4 59 a\nE 1 2 3 not a note\n: 4 4 59 never reached\n";
    let lines = parse_txt_lines_str(txt).unwrap();
    assert_eq!(lines.len(), 1);
    assert_eq!(lines[0].notes.len(), 1);
}

// The header parser finds the tag pattern anywhere in the line and stops
// only at lines without one.
#[test]
fn header_stops_at_first_untagged_line() {
    let txt = "#TITLE:T\n#ARTIST:A\nnothing here\n#MP3:m.mp3\n#BPM:123\n";
    match parse_txt_header_str(txt) {
        Err(ErrorKind::MissingEssential(fields)) => {
            assert_eq!(fields, vec![String::from("BPM"), String::from("Audio Path")]);
        }
        r => panic!("unexpected result: {:?}", r),
    }
}

#[test]
fn header_line_number_counts_skipped_empty_values() {
    // the duplicate is on line 3, even though line 2 was skipped
    let txt = "#TITLE:T\n#GENRE:\n#TITLE:again\n";
    match parse_txt_header_str(txt) {
        Err(ErrorKind::DuplicateHeader(line, tag)) => {
            assert_eq!(line, 3);
            assert_eq!(tag, "TITLE");
        }
        r => panic!("unexpected result: {:?}", r),
    }
}

#[test]
fn crlf_line_endings_are_tolerated() {
    let txt = "#TITLE:T\r\n#ARTIST:A\r\n#MP3:m.mp3\r\n#BPM:123\r\n";
    let header = parse_txt_header_str(txt).unwrap();
    assert_eq!(header.title, "T");
    assert_eq!(header.artist, "A");
}

#[test]
fn minimal_header_parses() {
    let header = parse_txt_header_str(minimal_header_txt()).unwrap();
    assert_eq!(header.title, "T");
    assert_eq!(header.artist, "A");
    assert_eq!(header.bpm, FloatNum { repr: String::from("123") });
    assert_eq!(header.audio_path, Source::Local(String::from("m.mp3")));
    assert_eq!(header.gap, None);
    assert_eq!(header.unknown, None);
}

#[test]
fn mixed_case_relative() {
    let txt = "#TITLE:T\n#ARTIST:A\n#MP3:m.mp3\n#BPM:123\n#RELATIVE:YeS\n";
    let header = parse_txt_header_str(txt).unwrap();
    assert_eq!(header.relative, Some(true));
    let txt2 = "#TITLE:T\n#ARTIST:A\n#MP3:m.mp3\n#BPM:123\n#RELATIVE:nO\n";
    let header2 = parse_txt_header_str(txt2).unwrap();
    assert_eq!(header2.relative, Some(false));
}

// A carriage return is part of a line ending only before a newline; a lone
// one at the very end of the input stays in the value.
#[test]
fn lone_trailing_carriage_return_stays() {
    let txt = "#TITLE:T\n#ARTIST:A\n#MP3:m.mp3\n#BPM:123\r";
    match parse_txt_header_str(txt) {
        Err(ErrorKind::ValueError(line, field)) => {
            assert_eq!(line, 4);
            assert_eq!(field, "BPM");
        }
        r => panic!("unexpected result: {:?}", r),
    }
}
