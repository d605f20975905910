//! The parser: the header block and the note lines of a song text.
//!
//! Both directions work line by line over [`crate::text::split_lines`] with a
//! 1-based line counter. The header parser consumes the leading run of
//! `#TAG:VALUE` lines and stops, without error, at the first line that does
//! not match that pattern; the line parser walks the whole text, skipping
//! header lines, classifying every other line by a fixed priority order, and
//! succeeding only through the `E` terminator.

use vstd::prelude::*;

pub use crate::error::ErrorKind;

use crate::error::ErrView;
use crate::numbers::digits_val;
use crate::numbers::fits_i32;
use crate::numbers::float_syntax;
use crate::numbers::int_val;
use crate::numbers::is_int_shape;
use crate::numbers::is_u32_shape;
use crate::numbers::parse_i32;
use crate::numbers::parse_u32;
use crate::numbers::float_check;
use crate::numbers::replace_commas;
use crate::numbers::subst_commas;
use crate::numbers::u32_body;
use crate::structs::FloatNum;
use crate::structs::Header;
use crate::structs::HeaderView;
use crate::structs::Line;
use crate::structs::LineView;
use crate::structs::Note;
use crate::structs::NoteView;
use crate::structs::Source;
use crate::structs::SourceView;
use crate::structs::spec_source_parse;
use crate::structs::view_opt_float;
use crate::structs::view_opt_source;
use crate::structs::view_opt_str;
use crate::structs::view_pairs;
use crate::text::digit_run;
use crate::text::digit_run_exec;
use crate::text::is_digit;
use crate::text::is_space;
use crate::text::lemma_digit_run;
use crate::text::name_run;
use crate::text::name_run_exec;
use crate::text::space_char;
use crate::text::space_run;
use crate::text::space_run_exec;
use crate::text::split_lines;
use crate::text::split_lines_exec;
use crate::text::str_eq;
use crate::text::views_of;

verus! {

// ------------------------------------------------------------------
// the header tag pattern
// ------------------------------------------------------------------

/// A tag pattern starts at `i`: a `#`, a run of name characters, a colon.
pub open spec fn tag_at(s: Seq<char>, i: int) -> bool {
    &&& 0 <= i < s.len()
    &&& s[i] == '#'
    &&& name_run(s, i + 1) < s.len()
    &&& s[name_run(s, i + 1)] == ':'
}

/// First position at or after `i` where the tag pattern starts, or `s.len()`.
pub open spec fn first_tag_pos(s: Seq<char>, i: int) -> int
    decreases s.len() - i,
{
    if i < 0 || i >= s.len() {
        s.len() as int
    } else if tag_at(s, i) {
        i
    } else {
        first_tag_pos(s, i + 1)
    }
}

pub proof fn lemma_first_tag_pos_at(s: Seq<char>, i: int, j: int)
    requires
        0 <= i <= j <= s.len(),
        forall|k: int| i <= k < j ==> !tag_at(s, k),
        j < s.len() ==> tag_at(s, j),
    ensures
        first_tag_pos(s, i) == if j < s.len() {
            j
        } else {
            s.len() as int
        },
    decreases j - i,
{
    if i < j {
        lemma_first_tag_pos_at(s, i + 1, j);
    }
}

/// Key and value of the leftmost tag pattern in a line: the name run after
/// its `#`, and everything after its colon to the end of the line.
pub open spec fn find_tag(s: Seq<char>) -> Option<(Seq<char>, Seq<char>)> {
    let p = first_tag_pos(s, 0);
    if p < s.len() {
        let e = name_run(s, p + 1);
        Some((s.subrange(p + 1, e), s.subrange(e + 1, s.len() as int)))
    } else {
        None
    }
}

/// Find the leftmost tag pattern of a line.
pub fn find_tag_exec<'a>(line: &'a str) -> (r: Option<(&'a str, &'a str)>)
    ensures
        match r {
            Some((k, v)) => find_tag(line@) == Some((k@, v@)),
            None => find_tag(line@) is None,
        },
{
    let n = line.unicode_len();
    let mut i: usize = 0;
    while i < n
        invariant
            n == line@.len(),
            i <= n,
            forall|k: int| 0 <= k < i ==> !tag_at(line@, k),
        decreases n - i,
    {
        if line.get_char(i) == '#' {
            let e = name_run_exec(line, i + 1);
            if e < n && line.get_char(e) == ':' {
                proof {
                    assert(tag_at(line@, i as int));
                    lemma_first_tag_pos_at(line@, 0, i as int);
                }
                let key = line.substring_char(i + 1, e);
                let value = line.substring_char(e + 1, n);
                return Some((key, value));
            }
            proof {
                assert(!tag_at(line@, i as int));
            }
        } else {
            proof {
                assert(!tag_at(line@, i as int));
            }
        }
        i += 1;
    }
    proof {
        lemma_first_tag_pos_at(line@, 0, n as int);
    }
    None
}

// ------------------------------------------------------------------
// the header accumulator and its single step
// ------------------------------------------------------------------

/// The header fields gathered so far, all optional.
pub struct HeaderAcc {
    /// the TITLE value
    pub title: Option<Seq<char>>,
    /// the ARTIST value
    pub artist: Option<Seq<char>>,
    /// the BPM value, commas already turned into dots
    pub bpm: Option<Seq<char>>,
    /// the MP3 value, read as a source
    pub audio: Option<SourceView>,
    /// the GAP value, commas already turned into dots
    pub gap: Option<Seq<char>>,
    /// the COVER value, read as a source
    pub cover: Option<SourceView>,
    /// the BACKGROUND value, read as a source
    pub background: Option<SourceView>,
    /// the VIDEO value, read as a source
    pub video: Option<SourceView>,
    /// the VIDEOGAP value, commas already turned into dots
    pub video_gap: Option<Seq<char>>,
    /// the GENRE value
    pub genre: Option<Seq<char>>,
    /// the EDITION value
    pub edition: Option<Seq<char>>,
    /// the LANGUAGE value
    pub language: Option<Seq<char>>,
    /// the YEAR value
    pub year: Option<u32>,
    /// the RELATIVE value
    pub relative: Option<bool>,
    /// the unrecognized tags with their values, in order of first appearance
    pub unknown: Option<Seq<(Seq<char>, Seq<char>)>>,
}

/// The accumulator before any line was read.
pub open spec fn empty_acc() -> HeaderAcc {
    HeaderAcc {
        title: None,
        artist: None,
        bpm: None,
        audio: None,
        gap: None,
        cover: None,
        background: None,
        video: None,
        video_gap: None,
        genre: None,
        edition: None,
        language: None,
        year: None,
        relative: None,
        unknown: None,
    }
}

/// The word `YES`, in any mixture of case.
pub open spec fn is_yes_word(v: Seq<char>) -> bool {
    v.len() == 3 && (v[0] == 'Y' || v[0] == 'y') && (v[1] == 'E' || v[1] == 'e') && (v[2] == 'S'
        || v[2] == 's')
}

/// The word `NO`, in any mixture of case.
pub open spec fn is_no_word(v: Seq<char>) -> bool {
    v.len() == 2 && (v[0] == 'N' || v[0] == 'n') && (v[1] == 'O' || v[1] == 'o')
}

/// Some unrecognized tag of this name was seen before.
pub open spec fn unknown_has_key(u: Seq<(Seq<char>, Seq<char>)>, k: Seq<char>) -> bool {
    exists|i: int| 0 <= i < u.len() && (#[trigger] u[i]).0 == k
}

/// One header line with tag `key`, nonempty `value`, at 1-based line `ln`:
/// a recognized tag seen before fails as a duplicate, a recognized tag with
/// an unreadable value fails as a value error, anything else extends the
/// accumulator. A second unrecognized tag of any already-seen name is a
/// duplicate reported under the name `UNKNOWN`.
pub open spec fn header_step(acc: HeaderAcc, key: Seq<char>, value: Seq<char>, ln: int) -> Result<
    HeaderAcc,
    ErrView,
> {
    if key == "TITLE"@ {
        if acc.title is None {
            Ok(HeaderAcc { title: Some(value), ..acc })
        } else {
            Err(ErrView::DuplicateHeader { line: ln, tag: "TITLE"@ })
        }
    } else if key == "ARTIST"@ {
        if acc.artist is None {
            Ok(HeaderAcc { artist: Some(value), ..acc })
        } else {
            Err(ErrView::DuplicateHeader { line: ln, tag: "ARTIST"@ })
        }
    } else if key == "MP3"@ {
        if acc.audio is None {
            Ok(HeaderAcc { audio: Some(spec_source_parse(value)), ..acc })
        } else {
            Err(ErrView::DuplicateHeader { line: ln, tag: "MP3"@ })
        }
    } else if key == "BPM"@ {
        if acc.bpm is None {
            if float_syntax(subst_commas(value)) {
                Ok(HeaderAcc { bpm: Some(subst_commas(value)), ..acc })
            } else {
                Err(ErrView::ValueError { line: ln, field: "BPM"@ })
            }
        } else {
            Err(ErrView::DuplicateHeader { line: ln, tag: "BPM"@ })
        }
    } else if key == "GAP"@ {
        if acc.gap is None {
            if float_syntax(subst_commas(value)) {
                Ok(HeaderAcc { gap: Some(subst_commas(value)), ..acc })
            } else {
                Err(ErrView::ValueError { line: ln, field: "GAP"@ })
            }
        } else {
            Err(ErrView::DuplicateHeader { line: ln, tag: "GAP"@ })
        }
    } else if key == "COVER"@ {
        if acc.cover is None {
            Ok(HeaderAcc { cover: Some(spec_source_parse(value)), ..acc })
        } else {
            Err(ErrView::DuplicateHeader { line: ln, tag: "COVER"@ })
        }
    } else if key == "BACKGROUND"@ {
        if acc.background is None {
            Ok(HeaderAcc { background: Some(spec_source_parse(value)), ..acc })
        } else {
            Err(ErrView::DuplicateHeader { line: ln, tag: "BACKGROUND"@ })
        }
    } else if key == "VIDEO"@ {
        if acc.video is None {
            Ok(HeaderAcc { video: Some(spec_source_parse(value)), ..acc })
        } else {
            Err(ErrView::DuplicateHeader { line: ln, tag: "VIDEO"@ })
        }
    } else if key == "VIDEOGAP"@ {
        if acc.video_gap is None {
            if float_syntax(subst_commas(value)) {
                Ok(HeaderAcc { video_gap: Some(subst_commas(value)), ..acc })
            } else {
                Err(ErrView::ValueError { line: ln, field: "VIDEOGAP"@ })
            }
        } else {
            Err(ErrView::DuplicateHeader { line: ln, tag: "VIDEOGAP"@ })
        }
    } else if key == "GENRE"@ {
        if acc.genre is None {
            Ok(HeaderAcc { genre: Some(value), ..acc })
        } else {
            Err(ErrView::DuplicateHeader { line: ln, tag: "GENRE"@ })
        }
    } else if key == "EDITION"@ {
        if acc.edition is None {
            Ok(HeaderAcc { edition: Some(value), ..acc })
        } else {
            Err(ErrView::DuplicateHeader { line: ln, tag: "EDITION"@ })
        }
    } else if key == "LANGUAGE"@ {
        if acc.language is None {
            Ok(HeaderAcc { language: Some(value), ..acc })
        } else {
            Err(ErrView::DuplicateHeader { line: ln, tag: "LANGUAGE"@ })
        }
    } else if key == "YEAR"@ {
        if acc.year is None {
            if is_u32_shape(value) && digits_val(u32_body(value)) <= 0xffff_ffff {
                Ok(HeaderAcc { year: Some(digits_val(u32_body(value)) as u32), ..acc })
            } else {
                Err(ErrView::ValueError { line: ln, field: "YEAR"@ })
            }
        } else {
            Err(ErrView::DuplicateHeader { line: ln, tag: "YEAR"@ })
        }
    } else if key == "RELATIVE"@ {
        if acc.relative is None {
            if is_yes_word(value) {
                Ok(HeaderAcc { relative: Some(true), ..acc })
            } else if is_no_word(value) {
                Ok(HeaderAcc { relative: Some(false), ..acc })
            } else {
                Err(ErrView::ValueError { line: ln, field: "RELATIVE"@ })
            }
        } else {
            Err(ErrView::DuplicateHeader { line: ln, tag: "RELATIVE"@ })
        }
    } else {
        match acc.unknown {
            Some(u) => {
                if unknown_has_key(u, key) {
                    Err(ErrView::DuplicateHeader { line: ln, tag: "UNKNOWN"@ })
                } else {
                    Ok(HeaderAcc { unknown: Some(u.push((key, value))), ..acc })
                }
            },
            None => Ok(HeaderAcc { unknown: Some(seq![(key, value)]), ..acc }),
        }
    }
}

/// Walk the lines from index `i`: stop without error at the first line that
/// bears no tag pattern, skip tags with empty values, apply every other tag.
pub open spec fn parse_header_from(lines: Seq<Seq<char>>, i: int, acc: HeaderAcc) -> Result<
    HeaderAcc,
    ErrView,
>
    decreases lines.len() - i,
{
    if i < 0 || i >= lines.len() {
        Ok(acc)
    } else {
        match find_tag(lines[i]) {
            None => Ok(acc),
            Some((key, value)) => {
                if value.len() == 0 {
                    parse_header_from(lines, i + 1, acc)
                } else {
                    match header_step(acc, key, value, i + 1) {
                        Ok(acc2) => parse_header_from(lines, i + 1, acc2),
                        Err(e) => Err(e),
                    }
                }
            },
        }
    }
}

/// The names of the mandatory fields never set, in the fixed reporting order.
pub open spec fn missing_fields(acc: HeaderAcc) -> Seq<Seq<char>> {
    let f0 = Seq::<Seq<char>>::empty();
    let f1 = if acc.title is None {
        f0.push("Title"@)
    } else {
        f0
    };
    let f2 = if acc.artist is None {
        f1.push("Artist"@)
    } else {
        f1
    };
    let f3 = if acc.bpm is None {
        f2.push("BPM"@)
    } else {
        f2
    };
    if acc.audio is None {
        f3.push("Audio Path"@)
    } else {
        f3
    }
}

/// A header from a finished accumulator, or the aggregate report of every
/// missing mandatory field.
pub open spec fn finalize_header(acc: HeaderAcc) -> Result<HeaderView, ErrView> {
    if acc.title is Some && acc.artist is Some && acc.bpm is Some && acc.audio is Some {
        Ok(
            HeaderView {
                artist: acc.artist->0,
                title: acc.title->0,
                bpm: acc.bpm->0,
                audio_path: acc.audio->0,
                gap: acc.gap,
                cover_path: acc.cover,
                background_path: acc.background,
                video_path: acc.video,
                video_gap: acc.video_gap,
                genre: acc.genre,
                edition: acc.edition,
                language: acc.language,
                year: acc.year,
                relative: acc.relative,
                unknown: acc.unknown,
            },
        )
    } else {
        Err(ErrView::MissingEssential { fields: missing_fields(acc) })
    }
}

/// What parsing the header of `s` returns.
pub open spec fn spec_parse_header(s: Seq<char>) -> Result<HeaderView, ErrView> {
    match parse_header_from(split_lines(s), 0, empty_acc()) {
        Ok(acc) => finalize_header(acc),
        Err(e) => Err(e),
    }
}

// ------------------------------------------------------------------
// the exec header parser
// ------------------------------------------------------------------

/// The header fields gathered so far, as executable values.
struct HeaderBuilder {
    title: Option<String>,
    artist: Option<String>,
    bpm: Option<FloatNum>,
    audio: Option<Source>,
    gap: Option<FloatNum>,
    cover: Option<Source>,
    background: Option<Source>,
    video: Option<Source>,
    video_gap: Option<FloatNum>,
    genre: Option<String>,
    edition: Option<String>,
    language: Option<String>,
    year: Option<u32>,
    relative: Option<bool>,
    unknown: Vec<(String, String)>,
    has_unknown: bool,
}

impl View for HeaderBuilder {
    type V = HeaderAcc;

    closed spec fn view(&self) -> HeaderAcc {
        HeaderAcc {
            title: view_opt_str(self.title),
            artist: view_opt_str(self.artist),
            bpm: view_opt_float(self.bpm),
            audio: view_opt_source(self.audio),
            gap: view_opt_float(self.gap),
            cover: view_opt_source(self.cover),
            background: view_opt_source(self.background),
            video: view_opt_source(self.video),
            video_gap: view_opt_float(self.video_gap),
            genre: view_opt_str(self.genre),
            edition: view_opt_str(self.edition),
            language: view_opt_str(self.language),
            year: self.year,
            relative: self.relative,
            unknown: if self.has_unknown {
                Some(view_pairs(self.unknown@))
            } else {
                None
            },
        }
    }
}

impl HeaderBuilder {
    fn new() -> (r: HeaderBuilder)
        ensures
            r@ == empty_acc(),
            !r.has_unknown,
            r.unknown@.len() == 0,
    {
        HeaderBuilder {
            title: None,
            artist: None,
            bpm: None,
            audio: None,
            gap: None,
            cover: None,
            background: None,
            video: None,
            video_gap: None,
            genre: None,
            edition: None,
            language: None,
            year: None,
            relative: None,
            unknown: Vec::new(),
            has_unknown: false,
        }
    }
}

/// Is this unrecognized tag name already recorded?
fn unknown_contains(u: &Vec<(String, String)>, key: &str) -> (r: bool)
    ensures
        r == unknown_has_key(view_pairs(u@), key@),
{
    let mut i: usize = 0;
    while i < u.len()
        invariant
            i <= u.len(),
            forall|k: int| 0 <= k < i ==> (#[trigger] view_pairs(u@)[k]).0 != key@,
        decreases u.len() - i,
    {
        if str_eq(u[i].0.as_str(), key) {
            proof {
                assert((view_pairs(u@)[i as int]).0 == key@);
            }
            return true;
        }
        i += 1;
    }
    false
}

/// Decide [`is_yes_word`].
fn yes_word(v: &str) -> (r: bool)
    ensures
        r == is_yes_word(v@),
{
    if v.unicode_len() != 3 {
        return false;
    }
    let c0 = v.get_char(0);
    let c1 = v.get_char(1);
    let c2 = v.get_char(2);
    (c0 == 'Y' || c0 == 'y') && (c1 == 'E' || c1 == 'e') && (c2 == 'S' || c2 == 's')
}

/// Decide [`is_no_word`].
fn no_word(v: &str) -> (r: bool)
    ensures
        r == is_no_word(v@),
{
    if v.unicode_len() != 2 {
        return false;
    }
    let c0 = v.get_char(0);
    let c1 = v.get_char(1);
    (c0 == 'N' || c0 == 'n') && (c1 == 'O' || c1 == 'o')
}

/// Apply one tag line to the builder; mirrors [`header_step`].
fn header_step_exec(b: &mut HeaderBuilder, key: &str, value: &str, ln: usize) -> (r: Result<
    (),
    ErrorKind,
>)
    requires
        !old(b).has_unknown ==> old(b).unknown@.len() == 0,
    ensures
        !final(b).has_unknown ==> final(b).unknown@.len() == 0,
        match r {
            Ok(_) => header_step(old(b)@, key@, value@, ln as int) == Ok::<HeaderAcc, ErrView>(
                final(b)@,
            ),
            Err(e) => header_step(old(b)@, key@, value@, ln as int) == Err::<HeaderAcc, ErrView>(
                e@,
            ),
        },
{
    if str_eq(key, "TITLE") {
        if b.title.is_none() {
            b.title = Some(value.to_owned());
            Ok(())
        } else {
            Err(ErrorKind::DuplicateHeader(ln, "TITLE".to_owned()))
        }
    } else if str_eq(key, "ARTIST") {
        if b.artist.is_none() {
            b.artist = Some(value.to_owned());
            Ok(())
        } else {
            Err(ErrorKind::DuplicateHeader(ln, "ARTIST".to_owned()))
        }
    } else if str_eq(key, "MP3") {
        if b.audio.is_none() {
            b.audio = Some(Source::parse(value));
            Ok(())
        } else {
            Err(ErrorKind::DuplicateHeader(ln, "MP3".to_owned()))
        }
    } else if str_eq(key, "BPM") {
        if b.bpm.is_none() {
            let norm = replace_commas(value);
            if float_check(norm.as_str()) {
                b.bpm = Some(FloatNum { repr: norm });
                Ok(())
            } else {
                Err(ErrorKind::ValueError(ln, "BPM".to_owned()))
            }
        } else {
            Err(ErrorKind::DuplicateHeader(ln, "BPM".to_owned()))
        }
    } else if str_eq(key, "GAP") {
        if b.gap.is_none() {
            let norm = replace_commas(value);
            if float_check(norm.as_str()) {
                b.gap = Some(FloatNum { repr: norm });
                Ok(())
            } else {
                Err(ErrorKind::ValueError(ln, "GAP".to_owned()))
            }
        } else {
            Err(ErrorKind::DuplicateHeader(ln, "GAP".to_owned()))
        }
    } else if str_eq(key, "COVER") {
        if b.cover.is_none() {
            b.cover = Some(Source::parse(value));
            Ok(())
        } else {
            Err(ErrorKind::DuplicateHeader(ln, "COVER".to_owned()))
        }
    } else if str_eq(key, "BACKGROUND") {
        if b.background.is_none() {
            b.background = Some(Source::parse(value));
            Ok(())
        } else {
            Err(ErrorKind::DuplicateHeader(ln, "BACKGROUND".to_owned()))
        }
    } else if str_eq(key, "VIDEO") {
        if b.video.is_none() {
            b.video = Some(Source::parse(value));
            Ok(())
        } else {
            Err(ErrorKind::DuplicateHeader(ln, "VIDEO".to_owned()))
        }
    } else if str_eq(key, "VIDEOGAP") {
        if b.video_gap.is_none() {
            let norm = replace_commas(value);
            if float_check(norm.as_str()) {
                b.video_gap = Some(FloatNum { repr: norm });
                Ok(())
            } else {
                Err(ErrorKind::ValueError(ln, "VIDEOGAP".to_owned()))
            }
        } else {
            Err(ErrorKind::DuplicateHeader(ln, "VIDEOGAP".to_owned()))
        }
    } else if str_eq(key, "GENRE") {
        if b.genre.is_none() {
            b.genre = Some(value.to_owned());
            Ok(())
        } else {
            Err(ErrorKind::DuplicateHeader(ln, "GENRE".to_owned()))
        }
    } else if str_eq(key, "EDITION") {
        if b.edition.is_none() {
            b.edition = Some(value.to_owned());
            Ok(())
        } else {
            Err(ErrorKind::DuplicateHeader(ln, "EDITION".to_owned()))
        }
    } else if str_eq(key, "LANGUAGE") {
        if b.language.is_none() {
            b.language = Some(value.to_owned());
            Ok(())
        } else {
            Err(ErrorKind::DuplicateHeader(ln, "LANGUAGE".to_owned()))
        }
    } else if str_eq(key, "YEAR") {
        if b.year.is_none() {
            match parse_u32(value) {
                Some(y) => {
                    b.year = Some(y);
                    Ok(())
                },
                None => Err(ErrorKind::ValueError(ln, "YEAR".to_owned())),
            }
        } else {
            Err(ErrorKind::DuplicateHeader(ln, "YEAR".to_owned()))
        }
    } else if str_eq(key, "RELATIVE") {
        if b.relative.is_none() {
            if yes_word(value) {
                b.relative = Some(true);
                Ok(())
            } else if no_word(value) {
                b.relative = Some(false);
                Ok(())
            } else {
                Err(ErrorKind::ValueError(ln, "RELATIVE".to_owned()))
            }
        } else {
            Err(ErrorKind::DuplicateHeader(ln, "RELATIVE".to_owned()))
        }
    } else {
        if b.has_unknown {
            if unknown_contains(&b.unknown, key) {
                Err(ErrorKind::DuplicateHeader(ln, "UNKNOWN".to_owned()))
            } else {
                b.unknown.push((key.to_owned(), value.to_owned()));
                proof {
                    assert(view_pairs(b.unknown@) =~= view_pairs(old(b).unknown@).push(
                        (key@, value@),
                    ));
                }
                Ok(())
            }
        } else {
            b.unknown.push((key.to_owned(), value.to_owned()));
            b.has_unknown = true;
            proof {
                assert(old(b).unknown@.len() == 0);
                assert(view_pairs(b.unknown@) =~= seq![(key@, value@)]);
            }
            Ok(())
        }
    }
}

/// Parses the header of a given Ultrastar song and returns a [`Header`].
///
/// The returned header, or the returned error, is exactly what
/// [`spec_parse_header`] assigns to the text.
pub fn parse_txt_header_str(txt_str: &str) -> (r: Result<Header, ErrorKind>)
    ensures
        match r {
            Ok(h) => spec_parse_header(txt_str@) == Ok::<HeaderView, ErrView>(h@),
            Err(e) => spec_parse_header(txt_str@) == Err::<HeaderView, ErrView>(e@),
        },
{
    let lines = split_lines_exec(txt_str);
    let ghost lv = split_lines(txt_str@);
    let mut b = HeaderBuilder::new();
    let mut i: usize = 0;
    let mut stopped = false;
    while i < lines.len() && !stopped
        invariant
            views_of(lines@) == lv,
            lv == split_lines(txt_str@),
            i <= lines.len(),
            !stopped ==> parse_header_from(lv, 0, empty_acc()) == parse_header_from(lv, i as int, b@),
            stopped ==> parse_header_from(lv, 0, empty_acc()) == Ok::<HeaderAcc, ErrView>(b@),
            !b.has_unknown ==> b.unknown@.len() == 0,
        decreases lines.len() - i + if stopped { 0int } else { 1int },
    {
        let line = lines[i];
        proof {
            assert(lv[i as int] == line@);
        }
        match find_tag_exec(line) {
            None => {
                stopped = true;
            },
            Some((key, value)) => {
                if value.is_empty() {
                    i += 1;
                } else {
                    let ghost pre = b@;
                    match header_step_exec(&mut b, key, value, i + 1) {
                        Ok(_) => {
                            i += 1;
                        },
                        Err(e) => {
                            proof {
                                assert(parse_header_from(lv, i as int, pre) == Err::<
                                    HeaderAcc,
                                    ErrView,
                                >(e@));
                            }
                            return Err(e);
                        },
                    }
                }
            },
        }
    }
    proof {
        if !stopped {
            assert(parse_header_from(lv, i as int, b@) == Ok::<HeaderAcc, ErrView>(b@));
        }
    }
    let ghost acc = b@;
    if b.title.is_some() && b.artist.is_some() && b.bpm.is_some() && b.audio.is_some() {
        let header = Header {
            title: b.title.unwrap(),
            artist: b.artist.unwrap(),
            bpm: b.bpm.unwrap(),
            audio_path: b.audio.unwrap(),
            gap: b.gap,
            cover_path: b.cover,
            background_path: b.background,
            video_path: b.video,
            video_gap: b.video_gap,
            genre: b.genre,
            edition: b.edition,
            language: b.language,
            year: b.year,
            relative: b.relative,
            unknown: if b.has_unknown {
                Some(b.unknown)
            } else {
                None
            },
        };
        proof {
            assert(finalize_header(acc) == Ok::<HeaderView, ErrView>(header@));
        }
        Ok(header)
    } else {
        let mut fields: Vec<String> = Vec::new();
        if b.title.is_none() {
            fields.push("Title".to_owned());
        }
        if b.artist.is_none() {
            fields.push("Artist".to_owned());
        }
        if b.bpm.is_none() {
            fields.push("BPM".to_owned());
        }
        if b.audio.is_none() {
            fields.push("Audio Path".to_owned());
        }
        proof {
            assert(fields.deep_view() =~= missing_fields(acc));
        }
        Err(ErrorKind::MissingEssential(fields))
    }
}

// ------------------------------------------------------------------
// the line grammar
// ------------------------------------------------------------------

/// An optionally negated digit run starts at `i`.
pub open spec fn has_int(s: Seq<char>, i: int) -> bool {
    if i < s.len() && s[i] == '-' {
        digit_run(s, i + 1) > i + 1
    } else {
        digit_run(s, i) > i
    }
}

/// End of the optionally negated digit run that starts at `i`.
pub open spec fn int_end(s: Seq<char>, i: int) -> int {
    if i < s.len() && s[i] == '-' {
        digit_run(s, i + 1)
    } else {
        digit_run(s, i)
    }
}

/// An integer slice of a line has the `-?[0-9]+` shape.
pub proof fn lemma_int_slice(s: Seq<char>, i: int)
    requires
        0 <= i <= s.len(),
        has_int(s, i),
    ensures
        i < int_end(s, i) <= s.len(),
        is_int_shape(s.subrange(i, int_end(s, i))),
{
    let e = int_end(s, i);
    if i < s.len() && s[i] == '-' {
        lemma_digit_run(s, i + 1);
        let sub = s.subrange(i, e);
        assert(sub[0] == '-');
        assert(sub.len() >= 2);
        assert forall|k: int| 0 <= k < sub.len() - 1 implies is_digit(#[trigger] sub.skip(1)[k]) by {
            assert(sub.skip(1)[k] == s[i + 1 + k]);
        }
    } else {
        lemma_digit_run(s, i);
        let sub = s.subrange(i, e);
        assert(is_digit(sub[0]));
        assert(forall|k: int| 0 <= k < sub.len() ==> is_digit(#[trigger] sub[k]));
    }
}

/// Exec scan for one optionally negated digit run: whether one starts at `i`
/// and where it ends.
fn int_bounds(s: &str, i: usize) -> (r: (bool, usize))
    requires
        i <= s@.len(),
    ensures
        r.0 == has_int(s@, i as int),
        r.1 as int == int_end(s@, i as int),
        i <= r.1 <= s@.len(),
{
    let n = s.unicode_len();
    if i < n && s.get_char(i) == '-' {
        let e = digit_run_exec(s, i + 1);
        (e > i + 1, e)
    } else {
        let e = digit_run_exec(s, i);
        (e > i, e)
    }
}

/// The pieces of a line that matches the note pattern: a one-character type
/// symbol, three integers and the free text to the end of the line.
pub struct NoteMatch {
    /// the type symbol, whatever character stood first
    pub sym: char,
    /// the start slice
    pub s1: Seq<char>,
    /// the duration slice
    pub s2: Seq<char>,
    /// the pitch slice
    pub s3: Seq<char>,
    /// the text after the numbers, one leading whitespace removed
    pub text: Seq<char>,
}

/// Match a line against the note pattern: any first character, then three
/// whitespace-separated integers, then (after one optional whitespace) free
/// text to the end of the line.
pub open spec fn note_scan(line: Seq<char>) -> Option<NoteMatch> {
    if line.len() < 1 {
        None
    } else {
        let p1 = space_run(line, 1);
        if !has_int(line, p1) {
            None
        } else {
            let e1 = int_end(line, p1);
            if !(e1 < line.len() && is_space(line[e1])) {
                None
            } else {
                let p2 = space_run(line, e1);
                if !has_int(line, p2) {
                    None
                } else {
                    let e2 = int_end(line, p2);
                    if !(e2 < line.len() && is_space(line[e2])) {
                        None
                    } else {
                        let p3 = space_run(line, e2);
                        if !has_int(line, p3) {
                            None
                        } else {
                            let e3 = int_end(line, p3);
                            let t = if e3 < line.len() && is_space(line[e3]) {
                                e3 + 1
                            } else {
                                e3
                            };
                            Some(
                                NoteMatch {
                                    sym: line[0],
                                    s1: line.subrange(p1, e1),
                                    s2: line.subrange(p2, e2),
                                    s3: line.subrange(p3, e3),
                                    text: line.subrange(t, line.len() as int),
                                },
                            )
                        }
                    }
                }
            }
        }
    }
}

/// Match a line against the absolute line break pattern: a dash, one
/// optional whitespace, an integer, then only whitespace to the end.
pub open spec fn break_scan(line: Seq<char>) -> Option<Seq<char>> {
    if line.len() < 1 || line[0] != '-' {
        None
    } else {
        let p: int = if 1 < line.len() && is_space(line[1]) {
            2
        } else {
            1
        };
        if !has_int(line, p) {
            None
        } else {
            let e = int_end(line, p);
            if space_run(line, e) == line.len() {
                Some(line.subrange(p, e))
            } else {
                None
            }
        }
    }
}

/// Match a line against the relative line break pattern: a dash, one
/// optional whitespace, two whitespace-separated integers; anything may
/// follow.
pub open spec fn rel_scan(line: Seq<char>) -> Option<(Seq<char>, Seq<char>)> {
    if line.len() < 1 || line[0] != '-' {
        None
    } else {
        let p: int = if 1 < line.len() && is_space(line[1]) {
            2
        } else {
            1
        };
        if !has_int(line, p) {
            None
        } else {
            let e1 = int_end(line, p);
            if !(e1 < line.len() && is_space(line[e1])) {
                None
            } else {
                let p2 = space_run(line, e1);
                if !has_int(line, p2) {
                    None
                } else {
                    Some((line.subrange(p, e1), line.subrange(p2, int_end(line, p2))))
                }
            }
        }
    }
}

/// Match a line against the player change pattern: a `P`, one optional
/// whitespace, an integer; anything may follow.
pub open spec fn duet_scan(line: Seq<char>) -> Option<Seq<char>> {
    if line.len() < 1 || line[0] != 'P' {
        None
    } else {
        let p: int = if 1 < line.len() && is_space(line[1]) {
            2
        } else {
            1
        };
        if has_int(line, p) {
            Some(line.subrange(p, int_end(line, p)))
        } else {
            None
        }
    }
}

/// The integer slices of a successful scan have the integer shape.
pub proof fn lemma_note_scan_shapes(line: Seq<char>)
    requires
        note_scan(line) is Some,
    ensures
        is_int_shape(note_scan(line)->0.s1),
        is_int_shape(note_scan(line)->0.s2),
        is_int_shape(note_scan(line)->0.s3),
{
    let p1 = space_run(line, 1);
    crate::text::lemma_space_run(line, 1);
    lemma_int_slice(line, p1);
    let e1 = int_end(line, p1);
    crate::text::lemma_space_run(line, e1);
    let p2 = space_run(line, e1);
    lemma_int_slice(line, p2);
    let e2 = int_end(line, p2);
    crate::text::lemma_space_run(line, e2);
    let p3 = space_run(line, e2);
    lemma_int_slice(line, p3);
}

/// The integer slice of a successful break scan has the integer shape.
pub proof fn lemma_break_scan_shape(line: Seq<char>)
    requires
        break_scan(line) is Some,
    ensures
        is_int_shape(break_scan(line)->0),
{
    let p: int = if 1 < line.len() && is_space(line[1]) {
        2
    } else {
        1
    };
    lemma_int_slice(line, p);
}

/// The integer slices of a successful relative break scan have the integer
/// shape.
pub proof fn lemma_rel_scan_shapes(line: Seq<char>)
    requires
        rel_scan(line) is Some,
    ensures
        is_int_shape((rel_scan(line)->0).0),
        is_int_shape((rel_scan(line)->0).1),
{
    let p: int = if 1 < line.len() && is_space(line[1]) {
        2
    } else {
        1
    };
    lemma_int_slice(line, p);
    let e1 = int_end(line, p);
    crate::text::lemma_space_run(line, e1);
    let p2 = space_run(line, e1);
    lemma_int_slice(line, p2);
}

/// The integer slice of a successful player change scan has the integer
/// shape.
pub proof fn lemma_duet_scan_shape(line: Seq<char>)
    requires
        duet_scan(line) is Some,
    ensures
        is_int_shape(duet_scan(line)->0),
{
    let p: int = if 1 < line.len() && is_space(line[1]) {
        2
    } else {
        1
    };
    lemma_int_slice(line, p);
}

/// One note line at 1-based line `ln`: values are checked before the type
/// symbol, the duration must be non-negative, and only the five known
/// symbols name a note kind.
pub open spec fn note_step(m: NoteMatch, ln: int) -> Result<NoteView, ErrView> {
    if !fits_i32(int_val(m.s1)) {
        Err(ErrView::ValueError { line: ln, field: "note start"@ })
    } else if !(fits_i32(int_val(m.s2)) && int_val(m.s2) >= 0) {
        Err(ErrView::ValueError { line: ln, field: "note duration"@ })
    } else if !fits_i32(int_val(m.s3)) {
        Err(ErrView::ValueError { line: ln, field: "note pitch"@ })
    } else if m.sym == ':' {
        Ok(
            NoteView::Regular {
                start: int_val(m.s1),
                duration: int_val(m.s2),
                pitch: int_val(m.s3),
                text: m.text,
            },
        )
    } else if m.sym == '*' {
        Ok(
            NoteView::Golden {
                start: int_val(m.s1),
                duration: int_val(m.s2),
                pitch: int_val(m.s3),
                text: m.text,
            },
        )
    } else if m.sym == 'F' {
        Ok(
            NoteView::Freestyle {
                start: int_val(m.s1),
                duration: int_val(m.s2),
                pitch: int_val(m.s3),
                text: m.text,
            },
        )
    } else if m.sym == 'R' {
        Ok(
            NoteView::Rap {
                start: int_val(m.s1),
                duration: int_val(m.s2),
                pitch: int_val(m.s3),
                text: m.text,
            },
        )
    } else if m.sym == 'G' {
        Ok(
            NoteView::RapGolden {
                start: int_val(m.s1),
                duration: int_val(m.s2),
                pitch: int_val(m.s3),
                text: m.text,
            },
        )
    } else {
        Err(ErrView::UnknownNoteType { line: ln })
    }
}

/// The line collecting notes before any break marker.
pub open spec fn first_line_view() -> LineView {
    LineView { start: 0, rel: None, notes: Seq::empty() }
}

/// Walk the lines from index `i` with the finished lines `done` and the line
/// `cur` being accumulated. Each line is classified in the fixed priority
/// order: header, unsupported tempo change, terminator, note, absolute
/// break, relative break, player change; anything else fails. Only the
/// terminator ends the walk successfully.
pub open spec fn parse_lines_from(
    lines: Seq<Seq<char>>,
    i: int,
    done: Seq<LineView>,
    cur: LineView,
) -> Result<Seq<LineView>, ErrView>
    decreases lines.len() - i,
{
    if i < 0 || i >= lines.len() {
        Err(ErrView::MissingEndIndicator)
    } else {
        let line = lines[i];
        let ln = i + 1;
        if line.len() == 0 {
            Err(ErrView::ParserFailure { line: ln })
        } else if line[0] == '#' {
            parse_lines_from(lines, i + 1, done, cur)
        } else if line[0] == 'B' {
            Err(ErrView::NotImplemented { line: ln, feature: "variable bpm"@ })
        } else if line[0] == 'E' {
            Ok(done.push(cur))
        } else if note_scan(line) is Some {
            match note_step(note_scan(line)->0, ln) {
                Ok(nv) => parse_lines_from(
                    lines,
                    i + 1,
                    done,
                    LineView { notes: cur.notes.push(nv), ..cur },
                ),
                Err(e) => Err(e),
            }
        } else if break_scan(line) is Some {
            let s1 = break_scan(line)->0;
            if fits_i32(int_val(s1)) {
                parse_lines_from(
                    lines,
                    i + 1,
                    done.push(cur),
                    LineView { start: int_val(s1), rel: None, notes: Seq::empty() },
                )
            } else {
                Err(ErrView::ValueError { line: ln, field: "line start"@ })
            }
        } else if rel_scan(line) is Some {
            let pair = rel_scan(line)->0;
            let s1 = pair.0;
            let s2 = pair.1;
            if !fits_i32(int_val(s1)) {
                Err(ErrView::ValueError { line: ln, field: "line start"@ })
            } else if !fits_i32(int_val(s2)) {
                Err(ErrView::ValueError { line: ln, field: "line rel"@ })
            } else {
                parse_lines_from(
                    lines,
                    i + 1,
                    done.push(cur),
                    LineView { start: int_val(s1), rel: Some(int_val(s2)), notes: Seq::empty() },
                )
            }
        } else if duet_scan(line) is Some {
            let s1 = duet_scan(line)->0;
            if fits_i32(int_val(s1)) && 1 <= int_val(s1) <= 3 {
                parse_lines_from(
                    lines,
                    i + 1,
                    done,
                    LineView {
                        notes: cur.notes.push(NoteView::PlayerChange { player: int_val(s1) }),
                        ..cur
                    },
                )
            } else {
                Err(ErrView::ValueError { line: ln, field: "player change"@ })
            }
        } else {
            Err(ErrView::ParserFailure { line: ln })
        }
    }
}

/// What parsing the body of `s` returns.
pub open spec fn spec_parse_lines(s: Seq<char>) -> Result<Seq<LineView>, ErrView> {
    parse_lines_from(split_lines(s), 0, Seq::empty(), first_line_view())
}

// ------------------------------------------------------------------
// the exec line parser
// ------------------------------------------------------------------

/// The index bounds of the pieces of a note line.
struct NoteParts {
    sym: char,
    a1: usize,
    b1: usize,
    a2: usize,
    b2: usize,
    a3: usize,
    b3: usize,
    t: usize,
}

/// Exec scan for [`note_scan`].
fn note_scan_exec(line: &str) -> (r: Option<NoteParts>)
    ensures
        match r {
            Some(p) => {
                &&& note_scan(line@) == Some(
                    NoteMatch {
                        sym: p.sym,
                        s1: line@.subrange(p.a1 as int, p.b1 as int),
                        s2: line@.subrange(p.a2 as int, p.b2 as int),
                        s3: line@.subrange(p.a3 as int, p.b3 as int),
                        text: line@.subrange(p.t as int, line@.len() as int),
                    },
                )
                &&& p.a1 <= p.b1 <= line@.len()
                &&& p.a2 <= p.b2 <= line@.len()
                &&& p.a3 <= p.b3 <= line@.len()
                &&& p.t <= line@.len()
            },
            None => note_scan(line@) is None,
        },
{
    let n = line.unicode_len();
    if n < 1 {
        return None;
    }
    let p1 = space_run_exec(line, 1);
    let (h1, e1) = int_bounds(line, p1);
    if !h1 {
        return None;
    }
    if !(e1 < n && space_char(line.get_char(e1))) {
        return None;
    }
    let p2 = space_run_exec(line, e1);
    let (h2, e2) = int_bounds(line, p2);
    if !h2 {
        return None;
    }
    if !(e2 < n && space_char(line.get_char(e2))) {
        return None;
    }
    let p3 = space_run_exec(line, e2);
    let (h3, e3) = int_bounds(line, p3);
    if !h3 {
        return None;
    }
    let t = if e3 < n && space_char(line.get_char(e3)) {
        e3 + 1
    } else {
        e3
    };
    Some(NoteParts { sym: line.get_char(0), a1: p1, b1: e1, a2: p2, b2: e2, a3: p3, b3: e3, t })
}

/// Exec scan for [`break_scan`].
fn break_scan_exec(line: &str) -> (r: Option<(usize, usize)>)
    ensures
        match r {
            Some(p) => break_scan(line@) == Some(line@.subrange(p.0 as int, p.1 as int)) && p.0
                <= p.1 <= line@.len(),
            None => break_scan(line@) is None,
        },
{
    let n = line.unicode_len();
    if n < 1 || line.get_char(0) != '-' {
        return None;
    }
    let p: usize = if 1 < n && space_char(line.get_char(1)) {
        2
    } else {
        1
    };
    let (h, e) = int_bounds(line, p);
    if !h {
        return None;
    }
    if space_run_exec(line, e) == n {
        Some((p, e))
    } else {
        None
    }
}

/// Exec scan for [`rel_scan`].
fn rel_scan_exec(line: &str) -> (r: Option<(usize, usize, usize, usize)>)
    ensures
        match r {
            Some(p) => rel_scan(line@) == Some(
                (
                    line@.subrange(p.0 as int, p.1 as int),
                    line@.subrange(p.2 as int, p.3 as int),
                ),
            ) && p.0 <= p.1 <= line@.len() && p.2 <= p.3 <= line@.len(),
            None => rel_scan(line@) is None,
        },
{
    let n = line.unicode_len();
    if n < 1 || line.get_char(0) != '-' {
        return None;
    }
    let p: usize = if 1 < n && space_char(line.get_char(1)) {
        2
    } else {
        1
    };
    let (h1, e1) = int_bounds(line, p);
    if !h1 {
        return None;
    }
    if !(e1 < n && space_char(line.get_char(e1))) {
        return None;
    }
    let p2 = space_run_exec(line, e1);
    let (h2, e2) = int_bounds(line, p2);
    if !h2 {
        return None;
    }
    Some((p, e1, p2, e2))
}

/// Exec scan for [`duet_scan`].
fn duet_scan_exec(line: &str) -> (r: Option<(usize, usize)>)
    ensures
        match r {
            Some(p) => duet_scan(line@) == Some(line@.subrange(p.0 as int, p.1 as int)) && p.0
                <= p.1 <= line@.len(),
            None => duet_scan(line@) is None,
        },
{
    let n = line.unicode_len();
    if n < 1 || line.get_char(0) != 'P' {
        return None;
    }
    let p: usize = if 1 < n && space_char(line.get_char(1)) {
        2
    } else {
        1
    };
    let (h, e) = int_bounds(line, p);
    if h {
        Some((p, e))
    } else {
        None
    }
}

/// Parses the lyric lines of a given Ultrastar song and returns the
/// sequence of [`Line`] values.
///
/// The returned lines, or the returned error, are exactly what
/// [`spec_parse_lines`] assigns to the text.
pub fn parse_txt_lines_str(txt_str: &str) -> (r: Result<Vec<Line>, ErrorKind>)
    ensures
        match r {
            Ok(v) => spec_parse_lines(txt_str@) == Ok::<Seq<LineView>, ErrView>(v.deep_view()),
            Err(e) => spec_parse_lines(txt_str@) == Err::<Seq<LineView>, ErrView>(e@),
        },
{
    let lines = split_lines_exec(txt_str);
    let ghost lv = split_lines(txt_str@);
    let mut done: Vec<Line> = Vec::new();
    let mut cur = Line { start: 0, rel: None, notes: Vec::new() };
    let mut i: usize = 0;
    proof {
        assert(done.deep_view() =~= Seq::<LineView>::empty());
        assert(cur@.notes =~= Seq::<NoteView>::empty());
        assert(cur@ == first_line_view());
    }
    while i < lines.len()
        invariant
            views_of(lines@) == lv,
            lv == split_lines(txt_str@),
            i <= lines.len(),
            spec_parse_lines(txt_str@) == parse_lines_from(lv, i as int, done.deep_view(), cur@),
        decreases lines.len() - i,
    {
        let line = lines[i];
        proof {
            assert(lv[i as int] == line@);
        }
        let n = line.unicode_len();
        if n == 0 {
            return Err(ErrorKind::ParserFailure(i + 1));
        }
        let c0 = line.get_char(0);
        if c0 == '#' {
            i += 1;
        } else if c0 == 'B' {
            return Err(ErrorKind::NotImplemented(i + 1, "variable bpm".to_owned()));
        } else if c0 == 'E' {
            let ghost dv = done.deep_view();
            done.push(cur);
            proof {
                assert(done.deep_view() =~= dv.push(cur@));
            }
            return Ok(done);
        } else {
            match note_scan_exec(line) {
                Some(p) => {
                    proof {
                        lemma_note_scan_shapes(line@);
                    }
                    let ghost m = note_scan(line@)->0;
                    let s1 = line.substring_char(p.a1, p.b1);
                    let s2 = line.substring_char(p.a2, p.b2);
                    let s3 = line.substring_char(p.a3, p.b3);
                    let v1 = match parse_i32(s1) {
                        Some(v) => v,
                        None => {
                            return Err(ErrorKind::ValueError(i + 1, "note start".to_owned()));
                        },
                    };
                    let v2 = match parse_i32(s2) {
                        Some(v) => v,
                        None => {
                            return Err(ErrorKind::ValueError(i + 1, "note duration".to_owned()));
                        },
                    };
                    if v2 < 0 {
                        return Err(ErrorKind::ValueError(i + 1, "note duration".to_owned()));
                    }
                    let v3 = match parse_i32(s3) {
                        Some(v) => v,
                        None => {
                            return Err(ErrorKind::ValueError(i + 1, "note pitch".to_owned()));
                        },
                    };
                    let tx = line.substring_char(p.t, n);
                    let note = if p.sym == ':' {
                        Note::Regular { start: v1, duration: v2, pitch: v3, text: tx.to_owned() }
                    } else if p.sym == '*' {
                        Note::Golden { start: v1, duration: v2, pitch: v3, text: tx.to_owned() }
                    } else if p.sym == 'F' {
                        Note::Freestyle { start: v1, duration: v2, pitch: v3, text: tx.to_owned() }
                    } else if p.sym == 'R' {
                        Note::Rap { start: v1, duration: v2, pitch: v3, text: tx.to_owned() }
                    } else if p.sym == 'G' {
                        Note::RapGolden { start: v1, duration: v2, pitch: v3, text: tx.to_owned() }
                    } else {
                        return Err(ErrorKind::UnknownNoteType(i + 1));
                    };
                    let ghost cv = cur@;
                    proof {
                        assert(note_step(m, i + 1) == Ok::<NoteView, ErrView>(note@));
                    }
                    cur.notes.push(note);
                    proof {
                        assert(cur@.notes =~= cv.notes.push(note@));
                        assert(cur@ == LineView { notes: cv.notes.push(note@), ..cv });
                    }
                    i += 1;
                },
                None => {
                    match break_scan_exec(line) {
                        Some(bp) => {
                            proof {
                                lemma_break_scan_shape(line@);
                            }
                            let sb = line.substring_char(bp.0, bp.1);
                            match parse_i32(sb) {
                                Some(v) => {
                                    let ghost dv = done.deep_view();
                                    let ghost cv = cur@;
                                    done.push(cur);
                                    cur = Line { start: v, rel: None, notes: Vec::new() };
                                    proof {
                                        assert(done.deep_view() =~= dv.push(cv));
                                        assert(cur@.notes =~= Seq::<NoteView>::empty());
                                    }
                                    i += 1;
                                },
                                None => {
                                    return Err(
                                        ErrorKind::ValueError(i + 1, "line start".to_owned()),
                                    );
                                },
                            }
                        },
                        None => {
                            match rel_scan_exec(line) {
                                Some(rp) => {
                                    proof {
                                        lemma_rel_scan_shapes(line@);
                                    }
                                    let sa = line.substring_char(rp.0, rp.1);
                                    let sb = line.substring_char(rp.2, rp.3);
                                    let va = match parse_i32(sa) {
                                        Some(v) => v,
                                        None => {
                                            return Err(
                                                ErrorKind::ValueError(
                                                    i + 1,
                                                    "line start".to_owned(),
                                                ),
                                            );
                                        },
                                    };
                                    let vb = match parse_i32(sb) {
                                        Some(v) => v,
                                        None => {
                                            return Err(
                                                ErrorKind::ValueError(i + 1, "line rel".to_owned()),
                                            );
                                        },
                                    };
                                    let ghost dv = done.deep_view();
                                    let ghost cv = cur@;
                                    done.push(cur);
                                    cur = Line { start: va, rel: Some(vb), notes: Vec::new() };
                                    proof {
                                        assert(done.deep_view() =~= dv.push(cv));
                                        assert(cur@.notes =~= Seq::<NoteView>::empty());
                                    }
                                    i += 1;
                                },
                                None => {
                                    match duet_scan_exec(line) {
                                        Some(dp) => {
                                            proof {
                                                lemma_duet_scan_shape(line@);
                                            }
                                            let sd = line.substring_char(dp.0, dp.1);
                                            match parse_i32(sd) {
                                                Some(v) => {
                                                    if v >= 1 && v <= 3 {
                                                        let note = Note::PlayerChange {
                                                            player: v,
                                                        };
                                                        let ghost cv = cur@;
                                                        cur.notes.push(note);
                                                        proof {
                                                            assert(cur@.notes =~= cv.notes.push(
                                                                note@,
                                                            ));
                                                            assert(cur@ == LineView {
                                                                notes: cv.notes.push(note@),
                                                                ..cv
                                                            });
                                                        }
                                                        i += 1;
                                                    } else {
                                                        return Err(
                                                            ErrorKind::ValueError(
                                                                i + 1,
                                                                "player change".to_owned(),
                                                            ),
                                                        );
                                                    }
                                                },
                                                None => {
                                                    return Err(
                                                        ErrorKind::ValueError(
                                                            i + 1,
                                                            "player change".to_owned(),
                                                        ),
                                                    );
                                                },
                                            }
                                        },
                                        None => {
                                            return Err(ErrorKind::ParserFailure(i + 1));
                                        },
                                    }
                                },
                            }
                        },
                    }
                },
            }
        }
    }
    Err(ErrorKind::MissingEndIndicator)
}

} // verus!
