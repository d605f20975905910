//! The data model: media sources, the header, notes, lines and whole songs.
//!
//! All values are plain immutable data. Each type carries a mathematical view
//! (`@`) over which the parser's and the generator's contracts are stated,
//! and an equality that coincides with equality of views.

use vstd::prelude::*;

use crate::numbers::float_syntax;

verus! {

/// A floating-point number kept in its textual form, with any comma already
/// turned into a dot. The header's numeric tags (BPM, GAP, VIDEOGAP) only
/// ever test that the text parses as a float and hand the text on, so the
/// text itself is the value; the surrounding application converts it to its
/// preferred float width.
#[derive(Debug, Clone)]
pub struct FloatNum {
    /// the number's text
    pub repr: String,
}

impl View for FloatNum {
    type V = Seq<char>;

    open spec fn view(&self) -> Seq<char> {
        self.repr@
    }
}

impl FloatNum {
    /// The texts the parser ever stores: exactly those that parse as a float.
    pub open spec fn wf(&self) -> bool {
        float_syntax(self@)
    }
}

impl PartialEq for FloatNum {
    fn eq(&self, other: &FloatNum) -> (r: bool) {
        self.repr == other.repr
    }
}

impl vstd::std_specs::cmp::PartialEqSpecImpl for FloatNum {
    open spec fn obeys_eq_spec() -> bool {
        true
    }

    open spec fn eq_spec(&self, other: &FloatNum) -> bool {
        self@ == other@
    }
}

/// What parsing a string as a network locator yields: the normalized
/// serialization when the string is an absolute URL, nothing otherwise.
/// Named rather than spelled out: the WHATWG parsing and normalization rules
/// fill a standard of their own, but they are a function of the characters
/// alone.
pub uninterp spec fn url_str_of(s: Seq<char>) -> Option<Seq<char>>;

/// Relies on url's `Url::parse` and the `From<Url> for String` serialization:
/// parsing depends on the input characters alone, and the crate upholds (and
/// its `check_invariants` asserts) that a serialization reparses to itself.
#[verifier::external_body]
fn parse_url_normal(s: &str) -> (r: Option<String>)
    ensures
        match r {
            Some(u) => url_str_of(s@) == Some(u@) && url_str_of(u@) == Some(u@),
            None => url_str_of(s@) is None,
        },
{
    match url::Url::parse(s) {
        Ok(u) => Some(u.into()),
        Err(_) => None,
    }
}

/// Spec-level image of a [`Source`].
pub enum SourceView {
    /// a (possibly remote) resource, by its normalized URL text
    Remote(Seq<char>),
    /// a local file, by its path text
    Local(Seq<char>),
}

/// The textual form of a source.
pub open spec fn source_text(s: SourceView) -> Seq<char> {
    match s {
        SourceView::Remote(u) => u,
        SourceView::Local(p) => p,
    }
}

/// What [`Source::parse`] returns: the network-locator reading when the
/// string is an absolute URL, the local-path reading otherwise.
pub open spec fn spec_source_parse(v: Seq<char>) -> SourceView {
    match url_str_of(v) {
        Some(u) => SourceView::Remote(u),
        None => SourceView::Local(v),
    }
}

/// Describes the location of a file, either as a URL or a local path.
#[derive(Debug, Clone)]
pub enum Source {
    /// the URL of a (possibly remote) resource, in normalized text form
    Remote(String),
    /// the path to a local file
    Local(String),
}

impl View for Source {
    type V = SourceView;

    open spec fn view(&self) -> SourceView {
        match self {
            Source::Remote(u) => SourceView::Remote(u@),
            Source::Local(p) => SourceView::Local(p@),
        }
    }
}

impl Source {
    /// Convert the URL, respectively the path, to a string.
    pub fn to_str<'a>(&'a self) -> (r: Option<&'a str>)
        ensures
            r matches Some(t) && t@ == source_text(self@),
    {
        match self {
            Source::Remote(u) => Some(u.as_str()),
            Source::Local(p) => Some(p.as_str()),
        }
    }

    /// Attempt to parse a given string as a URL or, if that fails, as a path.
    pub fn parse(input_value: &str) -> (r: Source)
        ensures
            r@ == spec_source_parse(input_value@),
    {
        match parse_url_normal(input_value) {
            Some(u) => Source::Remote(u),
            None => Source::Local(input_value.to_owned()),
        }
    }
}

impl PartialEq for Source {
    fn eq(&self, other: &Source) -> (r: bool) {
        match (self, other) {
            (Source::Remote(a), Source::Remote(b)) => *a == *b,
            (Source::Local(a), Source::Local(b)) => *a == *b,
            _ => false,
        }
    }
}

impl vstd::std_specs::cmp::PartialEqSpecImpl for Source {
    open spec fn obeys_eq_spec() -> bool {
        true
    }

    open spec fn eq_spec(&self, other: &Source) -> bool {
        self@ == other@
    }
}

/// Spec-level image of a [`Note`].
pub enum NoteView {
    /// a regular note
    Regular { start: int, duration: int, pitch: int, text: Seq<char> },
    /// a golden note (double points)
    Golden { start: int, duration: int, pitch: int, text: Seq<char> },
    /// a freestyle note (no points)
    Freestyle { start: int, duration: int, pitch: int, text: Seq<char> },
    /// a rap note
    Rap { start: int, duration: int, pitch: int, text: Seq<char> },
    /// a golden rap note
    RapGolden { start: int, duration: int, pitch: int, text: Seq<char> },
    /// player change indicator for duet mode
    PlayerChange { player: int },
}

/// Describes the different types of notes the parser might encounter.
#[derive(Debug, Clone)]
pub enum Note {
    /// a regular note
    Regular {
        /// start of the note in beats
        start: i32,
        /// duration of the note in beats
        duration: i32,
        /// pitch of the note
        pitch: i32,
        /// text or syllable of the note
        text: String,
    },
    /// a golden note (double points)
    Golden {
        /// start of the note in beats
        start: i32,
        /// duration of the note in beats
        duration: i32,
        /// pitch of the note
        pitch: i32,
        /// text or syllable of the note
        text: String,
    },
    /// a freestyle note (a note that does not award points)
    Freestyle {
        /// start of the note in beats
        start: i32,
        /// duration of the note in beats
        duration: i32,
        /// pitch of the note
        pitch: i32,
        /// text or syllable of the note
        text: String,
    },
    /// a rap note
    Rap {
        /// start of the note in beats
        start: i32,
        /// duration of the note in beats
        duration: i32,
        /// pitch of the note
        pitch: i32,
        /// text or syllable of the note
        text: String,
    },
    /// a golden rap note
    RapGolden {
        /// start of the note in beats
        start: i32,
        /// duration of the note in beats
        duration: i32,
        /// pitch of the note
        pitch: i32,
        /// text or syllable of the note
        text: String,
    },
    /// player change indicator for duet mode
    PlayerChange {
        /// player to change to: 1 and 2 name a player, 3 means both
        player: i32,
    },
}

impl View for Note {
    type V = NoteView;

    open spec fn view(&self) -> NoteView {
        match self {
            Note::Regular { start, duration, pitch, text } => NoteView::Regular {
                start: *start as int,
                duration: *duration as int,
                pitch: *pitch as int,
                text: text@,
            },
            Note::Golden { start, duration, pitch, text } => NoteView::Golden {
                start: *start as int,
                duration: *duration as int,
                pitch: *pitch as int,
                text: text@,
            },
            Note::Freestyle { start, duration, pitch, text } => NoteView::Freestyle {
                start: *start as int,
                duration: *duration as int,
                pitch: *pitch as int,
                text: text@,
            },
            Note::Rap { start, duration, pitch, text } => NoteView::Rap {
                start: *start as int,
                duration: *duration as int,
                pitch: *pitch as int,
                text: text@,
            },
            Note::RapGolden { start, duration, pitch, text } => NoteView::RapGolden {
                start: *start as int,
                duration: *duration as int,
                pitch: *pitch as int,
                text: text@,
            },
            Note::PlayerChange { player } => NoteView::PlayerChange { player: *player as int },
        }
    }
}

impl DeepView for Note {
    type V = NoteView;

    open spec fn deep_view(&self) -> NoteView {
        self.view()
    }
}

impl Note {
    /// The start value of a timed note.
    pub open spec fn spec_start(&self) -> Option<i32> {
        match self {
            Note::Regular { start, .. } => Some(*start),
            Note::Golden { start, .. } => Some(*start),
            Note::Freestyle { start, .. } => Some(*start),
            Note::Rap { start, .. } => Some(*start),
            Note::RapGolden { start, .. } => Some(*start),
            Note::PlayerChange { .. } => None,
        }
    }

    /// The duration value of a timed note.
    pub open spec fn spec_duration(&self) -> Option<i32> {
        match self {
            Note::Regular { duration, .. } => Some(*duration),
            Note::Golden { duration, .. } => Some(*duration),
            Note::Freestyle { duration, .. } => Some(*duration),
            Note::Rap { duration, .. } => Some(*duration),
            Note::RapGolden { duration, .. } => Some(*duration),
            Note::PlayerChange { .. } => None,
        }
    }

    /// The pitch value of a timed note.
    pub open spec fn spec_pitch(&self) -> Option<i32> {
        match self {
            Note::Regular { pitch, .. } => Some(*pitch),
            Note::Golden { pitch, .. } => Some(*pitch),
            Note::Freestyle { pitch, .. } => Some(*pitch),
            Note::Rap { pitch, .. } => Some(*pitch),
            Note::RapGolden { pitch, .. } => Some(*pitch),
            Note::PlayerChange { .. } => None,
        }
    }

    /// The text of a timed note.
    pub open spec fn spec_text(&self) -> Option<Seq<char>> {
        match self {
            Note::Regular { text, .. } => Some(text@),
            Note::Golden { text, .. } => Some(text@),
            Note::Freestyle { text, .. } => Some(text@),
            Note::Rap { text, .. } => Some(text@),
            Note::RapGolden { text, .. } => Some(text@),
            Note::PlayerChange { .. } => None,
        }
    }

    /// The player of a player change marker.
    pub open spec fn spec_player(&self) -> Option<i32> {
        match self {
            Note::PlayerChange { player } => Some(*player),
            _ => None,
        }
    }

    /// Returns the start value of the note.
    pub fn start(&self) -> (r: Option<i32>)
        ensures
            r == self.spec_start(),
    {
        match self {
            Note::Regular { start, .. } => Some(*start),
            Note::Golden { start, .. } => Some(*start),
            Note::Freestyle { start, .. } => Some(*start),
            Note::Rap { start, .. } => Some(*start),
            Note::RapGolden { start, .. } => Some(*start),
            Note::PlayerChange { .. } => None,
        }
    }

    /// Returns the duration value of the note.
    pub fn duration(&self) -> (r: Option<i32>)
        ensures
            r == self.spec_duration(),
    {
        match self {
            Note::Regular { duration, .. } => Some(*duration),
            Note::Golden { duration, .. } => Some(*duration),
            Note::Freestyle { duration, .. } => Some(*duration),
            Note::Rap { duration, .. } => Some(*duration),
            Note::RapGolden { duration, .. } => Some(*duration),
            Note::PlayerChange { .. } => None,
        }
    }

    /// Returns the pitch value of the note.
    pub fn pitch(&self) -> (r: Option<i32>)
        ensures
            r == self.spec_pitch(),
    {
        match self {
            Note::Regular { pitch, .. } => Some(*pitch),
            Note::Golden { pitch, .. } => Some(*pitch),
            Note::Freestyle { pitch, .. } => Some(*pitch),
            Note::Rap { pitch, .. } => Some(*pitch),
            Note::RapGolden { pitch, .. } => Some(*pitch),
            Note::PlayerChange { .. } => None,
        }
    }

    /// Returns a reference to the text of the note.
    pub fn text<'a>(&'a self) -> (r: Option<&'a str>)
        ensures
            match r {
                Some(t) => self.spec_text() == Some(t@),
                None => self.spec_text() is None,
            },
    {
        match self {
            Note::Regular { text, .. } => Some(text.as_str()),
            Note::Golden { text, .. } => Some(text.as_str()),
            Note::Freestyle { text, .. } => Some(text.as_str()),
            Note::Rap { text, .. } => Some(text.as_str()),
            Note::RapGolden { text, .. } => Some(text.as_str()),
            Note::PlayerChange { .. } => None,
        }
    }

    /// Returns the player change number for duet mode.
    pub fn player(&self) -> (r: Option<i32>)
        ensures
            r == self.spec_player(),
    {
        match self {
            Note::PlayerChange { player } => Some(*player),
            _ => None,
        }
    }
}

impl PartialEq for Note {
    fn eq(&self, other: &Note) -> (r: bool) {
        match (self, other) {
            (
                Note::Regular { start: s1, duration: d1, pitch: p1, text: t1 },
                Note::Regular { start: s2, duration: d2, pitch: p2, text: t2 },
            ) => *s1 == *s2 && *d1 == *d2 && *p1 == *p2 && *t1 == *t2,
            (
                Note::Golden { start: s1, duration: d1, pitch: p1, text: t1 },
                Note::Golden { start: s2, duration: d2, pitch: p2, text: t2 },
            ) => *s1 == *s2 && *d1 == *d2 && *p1 == *p2 && *t1 == *t2,
            (
                Note::Freestyle { start: s1, duration: d1, pitch: p1, text: t1 },
                Note::Freestyle { start: s2, duration: d2, pitch: p2, text: t2 },
            ) => *s1 == *s2 && *d1 == *d2 && *p1 == *p2 && *t1 == *t2,
            (
                Note::Rap { start: s1, duration: d1, pitch: p1, text: t1 },
                Note::Rap { start: s2, duration: d2, pitch: p2, text: t2 },
            ) => *s1 == *s2 && *d1 == *d2 && *p1 == *p2 && *t1 == *t2,
            (
                Note::RapGolden { start: s1, duration: d1, pitch: p1, text: t1 },
                Note::RapGolden { start: s2, duration: d2, pitch: p2, text: t2 },
            ) => *s1 == *s2 && *d1 == *d2 && *p1 == *p2 && *t1 == *t2,
            (Note::PlayerChange { player: a }, Note::PlayerChange { player: b }) => *a == *b,
            _ => false,
        }
    }
}

impl vstd::std_specs::cmp::PartialEqSpecImpl for Note {
    open spec fn obeys_eq_spec() -> bool {
        true
    }

    open spec fn eq_spec(&self, other: &Note) -> bool {
        self@ == other@
    }
}

/// Spec-level image of a [`Line`].
pub struct LineView {
    /// the start of the line in beats
    pub start: int,
    /// the second value needed for relative timing
    pub rel: Option<int>,
    /// the notes the line contains
    pub notes: Seq<NoteView>,
}

/// Describes a line or sentence that is made up of notes and their syllables.
#[derive(Debug, Clone)]
pub struct Line {
    /// the start of the line in beats
    pub start: i32,
    /// the second value needed for relative timing
    pub rel: Option<i32>,
    /// the notes the line contains
    pub notes: Vec<Note>,
}

impl View for Line {
    type V = LineView;

    open spec fn view(&self) -> LineView {
        LineView {
            start: self.start as int,
            rel: match self.rel {
                Some(v) => Some(v as int),
                None => None,
            },
            notes: self.notes.deep_view(),
        }
    }
}

impl DeepView for Line {
    type V = LineView;

    open spec fn deep_view(&self) -> LineView {
        self.view()
    }
}

impl PartialEq for Line {
    fn eq(&self, other: &Line) -> (r: bool) {
        if self.start != other.start {
            return false;
        }
        let rel_ok = match self.rel {
            Some(a) => match other.rel {
                Some(b) => a == b,
                None => false,
            },
            None => other.rel.is_none(),
        };
        if !rel_ok {
            proof {
                assert(self@.rel != other@.rel);
            }
            return false;
        }
        if self.notes.len() != other.notes.len() {
            proof {
                assert(self@.notes.len() != other@.notes.len());
            }
            return false;
        }
        let mut i: usize = 0;
        while i < self.notes.len()
            invariant
                i <= self.notes.len(),
                self.notes.len() == other.notes.len(),
                forall|k: int| 0 <= k < i ==> self.notes@[k]@ == other.notes@[k]@,
        decreases self.notes.len() - i,
        {
            if !(self.notes[i] == other.notes[i]) {
                proof {
                    assert(self.notes.deep_view()[i as int] != other.notes.deep_view()[i as int]);
                }
                return false;
            }
            i += 1;
        }
        proof {
            assert(self.notes.deep_view() =~= other.notes.deep_view());
        }
        true
    }
}

impl vstd::std_specs::cmp::PartialEqSpecImpl for Line {
    open spec fn obeys_eq_spec() -> bool {
        true
    }

    open spec fn eq_spec(&self, other: &Line) -> bool {
        self@ == other@
    }
}

/// View of an optional text field.
pub open spec fn view_opt_str(o: Option<String>) -> Option<Seq<char>> {
    match o {
        Some(s) => Some(s@),
        None => None,
    }
}

/// View of an optional numeric text field.
pub open spec fn view_opt_float(o: Option<FloatNum>) -> Option<Seq<char>> {
    match o {
        Some(f) => Some(f@),
        None => None,
    }
}

/// View of an optional media reference.
pub open spec fn view_opt_source(o: Option<Source>) -> Option<SourceView> {
    match o {
        Some(s) => Some(s@),
        None => None,
    }
}

/// View of a sequence of tag/value pairs.
pub open spec fn view_pairs(v: Seq<(String, String)>) -> Seq<(Seq<char>, Seq<char>)> {
    Seq::new(v.len(), |i: int| (v[i].0@, v[i].1@))
}

/// View of the optional unknown-tag list.
pub open spec fn view_unknown(o: Option<Vec<(String, String)>>) -> Option<
    Seq<(Seq<char>, Seq<char>)>,
> {
    match o {
        Some(v) => Some(view_pairs(v@)),
        None => None,
    }
}

/// Spec-level image of a [`Header`].
pub struct HeaderView {
    /// the artist of the song
    pub artist: Seq<char>,
    /// the title of the song
    pub title: Seq<char>,
    /// the beats per minute of the song, as numeric text
    pub bpm: Seq<char>,
    /// the reference to the music file
    pub audio_path: SourceView,
    /// milliseconds between the start of the audio and the first note
    pub gap: Option<Seq<char>>,
    /// the reference to the cover file
    pub cover_path: Option<SourceView>,
    /// the reference to the background file
    pub background_path: Option<SourceView>,
    /// the reference to the video file
    pub video_path: Option<SourceView>,
    /// the time offset of the video to the audio
    pub video_gap: Option<Seq<char>>,
    /// the genre of the song
    pub genre: Option<Seq<char>>,
    /// the edition or category of the song
    pub edition: Option<Seq<char>>,
    /// the language the song is in
    pub language: Option<Seq<char>>,
    /// the year the song is from
    pub year: Option<u32>,
    /// whether the timing format of the song is relative
    pub relative: Option<bool>,
    /// the tags unknown to the parser, in order of first appearance
    pub unknown: Option<Seq<(Seq<char>, Seq<char>)>>,
}

/// Describes the header of an Ultrastar song. The first four fields are
/// mandatory; the header is invalid as a whole when any of them is missing.
#[derive(Debug, Clone)]
pub struct Header {
    /// the artist of the song
    pub artist: String,
    /// the title of the song
    pub title: String,
    /// the beats per minute of the song
    pub bpm: FloatNum,
    /// the reference to the music file
    pub audio_path: Source,
    /// milliseconds between the start of the audio and the first note
    pub gap: Option<FloatNum>,
    /// the reference to the cover file of the song
    pub cover_path: Option<Source>,
    /// the reference to the background file of the song
    pub background_path: Option<Source>,
    /// the reference to the video file of the song
    pub video_path: Option<Source>,
    /// the time offset of the video file to the audio file
    pub video_gap: Option<FloatNum>,
    /// the genre of the song
    pub genre: Option<String>,
    /// the edition or category of the song
    pub edition: Option<String>,
    /// the language the song is in
    pub language: Option<String>,
    /// the year the song is from
    pub year: Option<u32>,
    /// whether the timing format of the song is relative
    pub relative: Option<bool>,
    /// the tags unknown to the parser, each with its value, in order of
    /// first appearance
    pub unknown: Option<Vec<(String, String)>>,
}

impl View for Header {
    type V = HeaderView;

    open spec fn view(&self) -> HeaderView {
        HeaderView {
            artist: self.artist@,
            title: self.title@,
            bpm: self.bpm@,
            audio_path: self.audio_path@,
            gap: view_opt_float(self.gap),
            cover_path: view_opt_source(self.cover_path),
            background_path: view_opt_source(self.background_path),
            video_path: view_opt_source(self.video_path),
            video_gap: view_opt_float(self.video_gap),
            genre: view_opt_str(self.genre),
            edition: view_opt_str(self.edition),
            language: view_opt_str(self.language),
            year: self.year,
            relative: self.relative,
            unknown: view_unknown(self.unknown),
        }
    }
}

/// Equality of optional text fields.
fn eq_opt_string(a: &Option<String>, b: &Option<String>) -> (r: bool)
    ensures
        r == (view_opt_str(*a) == view_opt_str(*b)),
{
    match a {
        Some(x) => match b {
            Some(y) => *x == *y,
            None => false,
        },
        None => b.is_none(),
    }
}

/// Equality of optional numeric text fields.
fn eq_opt_float(a: &Option<FloatNum>, b: &Option<FloatNum>) -> (r: bool)
    ensures
        r == (view_opt_float(*a) == view_opt_float(*b)),
{
    match a {
        Some(x) => match b {
            Some(y) => *x == *y,
            None => false,
        },
        None => b.is_none(),
    }
}

/// Equality of optional media references.
fn eq_opt_source(a: &Option<Source>, b: &Option<Source>) -> (r: bool)
    ensures
        r == (view_opt_source(*a) == view_opt_source(*b)),
{
    match a {
        Some(x) => match b {
            Some(y) => *x == *y,
            None => false,
        },
        None => b.is_none(),
    }
}

/// Equality of the optional unknown-tag lists.
fn eq_unknown(a: &Option<Vec<(String, String)>>, b: &Option<Vec<(String, String)>>) -> (r: bool)
    ensures
        r == (view_unknown(*a) == view_unknown(*b)),
{
    match a {
        Some(x) => match b {
            Some(y) => {
                if x.len() != y.len() {
                    proof {
                        assert(view_pairs(x@).len() != view_pairs(y@).len());
                    }
                    return false;
                }
                let mut i: usize = 0;
                while i < x.len()
                    invariant
                        i <= x.len(),
                        x.len() == y.len(),
                        view_unknown(*a) == Some(view_pairs(x@)),
                        view_unknown(*b) == Some(view_pairs(y@)),
                        forall|k: int|
                            0 <= k < i ==> #[trigger] view_pairs(x@)[k] == view_pairs(y@)[k],
                    decreases x.len() - i,
                {
                    let (xk, xv) = (&x[i].0, &x[i].1);
                    let (yk, yv) = (&y[i].0, &y[i].1);
                    if !(*xk == *yk && *xv == *yv) {
                        proof {
                            assert(view_pairs(x@)[i as int] != view_pairs(y@)[i as int]);
                        }
                        return false;
                    }
                    i += 1;
                }
                proof {
                    assert(view_pairs(x@) =~= view_pairs(y@));
                }
                true
            },
            None => false,
        },
        None => b.is_none(),
    }
}

impl PartialEq for Header {
    fn eq(&self, other: &Header) -> (r: bool) {
        let ok = self.artist == other.artist && self.title == other.title && self.bpm == other.bpm
            && self.audio_path == other.audio_path && eq_opt_float(&self.gap, &other.gap)
            && eq_opt_source(&self.cover_path, &other.cover_path) && eq_opt_source(
            &self.background_path,
            &other.background_path,
        ) && eq_opt_source(&self.video_path, &other.video_path) && eq_opt_float(
            &self.video_gap,
            &other.video_gap,
        ) && eq_opt_string(&self.genre, &other.genre) && eq_opt_string(
            &self.edition,
            &other.edition,
        ) && eq_opt_string(&self.language, &other.language) && self.year == other.year
            && self.relative == other.relative && eq_unknown(&self.unknown, &other.unknown);
        ok
    }
}

impl vstd::std_specs::cmp::PartialEqSpecImpl for Header {
    open spec fn obeys_eq_spec() -> bool {
        true
    }

    open spec fn eq_spec(&self, other: &Header) -> bool {
        self@ == other@
    }
}

/// Spec-level image of a [`TXTSong`].
pub struct TXTSongView {
    /// the header of the song
    pub header: HeaderView,
    /// the lines of the song
    pub lines: Seq<LineView>,
}

/// Describes an Ultrastar song as the combination of its header and its lines.
#[derive(Debug, Clone)]
pub struct TXTSong {
    /// the header of the song
    pub header: Header,
    /// the lines of the song
    pub lines: Vec<Line>,
}

impl View for TXTSong {
    type V = TXTSongView;

    open spec fn view(&self) -> TXTSongView {
        TXTSongView { header: self.header@, lines: self.lines.deep_view() }
    }
}

impl PartialEq for TXTSong {
    fn eq(&self, other: &TXTSong) -> (r: bool) {
        if !(self.header == other.header) {
            return false;
        }
        if self.lines.len() != other.lines.len() {
            proof {
                assert(self@.lines.len() != other@.lines.len());
            }
            return false;
        }
        let mut i: usize = 0;
        while i < self.lines.len()
            invariant
                i <= self.lines.len(),
                self.lines.len() == other.lines.len(),
                forall|k: int| 0 <= k < i ==> self.lines@[k]@ == other.lines@[k]@,
            decreases self.lines.len() - i,
        {
            if !(self.lines[i] == other.lines[i]) {
                proof {
                    assert(self.lines.deep_view()[i as int] != other.lines.deep_view()[i as int]);
                }
                return false;
            }
            i += 1;
        }
        proof {
            assert(self.lines.deep_view() =~= other.lines.deep_view());
        }
        true
    }
}

impl vstd::std_specs::cmp::PartialEqSpecImpl for TXTSong {
    open spec fn obeys_eq_spec() -> bool {
        true
    }

    open spec fn eq_spec(&self, other: &TXTSong) -> bool {
        self@ == other@
    }
}

} // verus!
