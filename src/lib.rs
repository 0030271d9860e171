use vstd::prelude::*;

pub mod parser;

pub use parser::{parse_cue, GlobalProperty, TrackProperty, CueFile};

verus! {

/// A count of CD frames, each 1/75 of a second.
#[derive(Debug, Clone, Copy, PartialEq, Eq, Structural, PartialOrd, Ord)]
pub struct Frames(pub usize);

/// The frame count of a Minutes:Seconds:Frames triple.
pub open spec fn msf_value(m: int, s: int, f: int) -> int {
    (m * 60 + s) * 75 + f
}

impl Frames {
    pub fn new(frames: usize) -> (r: Frames)
        ensures
            r.0 == frames,
    {
        Frames(frames)
    }

    /// From MM:SS:FF (minutes, seconds, frames).
    pub fn from_msf(m: usize, s: usize, f: usize) -> (r: Frames)
        requires
            msf_value(m as int, s as int, f as int) <= usize::MAX,
        ensures
            r.0 == msf_value(m as int, s as int, f as int),
    {
        assert(m * 60 <= usize::MAX && (m * 60 + s) * 75 <= usize::MAX) by (nonlinear_arith)
            requires
                (m * 60 + s) * 75 + f <= usize::MAX,
        ;
        Frames(((m * 60) + s) * 75 + f)
    }

    /// The duration of the frames, truncated to the nanosecond.
    pub fn to_duration(self) -> (r: std::time::Duration)
        ensures
            r == duration_of(
                (self.0 / 75) as u64,
                ((self.0 % 75) * 40_000_000 / 3) as u32,
            ),
    {
        let secs = (self.0 / 75) as u64;
        let rest = self.0 % 75;
        let nanos = (rest * 40_000_000 / 3) as u32;
        duration_new(secs, nanos)
    }

    /// Splits the count into minutes, seconds below 60 and frames below 75.
    pub fn to_msf(&self) -> (r: (usize, usize, usize))
        ensures
            r.2 == self.0 % 75,
            r.1 == (self.0 / 75) % 60,
            r.0 == self.0 / 75 / 60,
    {
        let mut frames = self.0;
        let f = frames % 75;
        frames = frames / 75;
        let s = frames % 60;
        frames = frames / 60;
        (frames, s, f)
    }
}

/// The duration of whole seconds plus nanoseconds below one second.
pub uninterp spec fn duration_of(secs: u64, nanos: u32) -> std::time::Duration;

/// Relies on Duration::new, which panics only when the nanoseconds carry the
/// seconds past their maximum; below one second they never carry.
#[verifier::external_body]
fn duration_new(secs: u64, nanos: u32) -> (r: std::time::Duration)
    requires
        nanos < 1_000_000_000,
    ensures
        r == duration_of(secs, nanos),
{
    std::time::Duration::new(secs, nanos)
}

/// Decomposing the frame count of `(m, s, f)` gives `(m, s, f)` back whenever
/// the seconds are below 60 and the frames below 75.
pub proof fn lemma_msf_round_trip(m: nat, s: nat, f: nat)
    requires
        s < 60,
        f < 75,
    ensures
        ({
            let v = msf_value(m as int, s as int, f as int);
            &&& v % 75 == f
            &&& (v / 75) % 60 == s
            &&& v / 75 / 60 == m
        }),
{
    let v = msf_value(m as int, s as int, f as int);
    vstd::arithmetic::div_mod::lemma_fundamental_div_mod_converse(v, 75, (m * 60 + s) as int, f as int);
    vstd::arithmetic::div_mod::lemma_fundamental_div_mod_converse(
        (m * 60 + s) as int,
        60,
        m as int,
        s as int,
    );
}

#[derive(Debug, Clone, Copy, PartialEq, Eq, Structural, Default)]
pub enum FileFormat {
    #[default]
    Unspecified,
    Binary,
    Motorola,
    Aiff,
    Wave,
    Mp3,
}

#[derive(Debug, Clone, Copy, PartialEq, Eq, Structural, Default)]
pub enum TrackMode {
    #[default]
    Audio,
    Cdg,
    Mode1_2048,
    Mode1_2352,
    Mode2_2336,
    Mode2_2352,
    Cdi_2336,
    Cdi_2352,
}

/// The four track flags as bits of one byte.
#[derive(Debug, Clone, Copy, PartialEq, Eq, Structural, Default)]
pub struct TrackFlags {
    pub bits: u8,
}

impl TrackFlags {
    pub const PRE_EMPHASIS_ENABLED: u8 = 1;
    pub const DIGITAL_COPY_PERMITTED: u8 = 2;
    pub const FOUR_CHANNEL: u8 = 4;
    pub const SERIAL_COPY_MANAGEMENT_SYSTEM: u8 = 8;

    pub fn empty() -> (r: TrackFlags)
        ensures
            r.bits == 0,
    {
        TrackFlags { bits: 0 }
    }

    pub fn union(self, other: TrackFlags) -> (r: TrackFlags)
        ensures
            r.bits == self.bits | other.bits,
    {
        TrackFlags { bits: self.bits | other.bits }
    }

    pub fn contains(self, bit: u8) -> (r: bool)
        ensures
            r == (self.bits & bit == bit),
    {
        self.bits & bit == bit
    }
}

#[derive(Debug, Clone, Copy, PartialEq, Eq, Structural)]
pub struct TrackIndex {
    pub index: usize,
    pub time: Option<Frames>,
}

/// What a track holds, with strings and lists as sequences.
pub struct TrackModel {
    pub track_index: u8,
    pub indices: Seq<TrackIndex>,
    pub time: Option<Frames>,
    pub flags: u8,
    pub mode: TrackMode,
    pub file: Option<Seq<char>>,
    pub format: FileFormat,
    pub performer: Option<Seq<char>>,
    pub songwriter: Option<Seq<char>>,
    pub title: Option<Seq<char>>,
    pub isrc: Option<Seq<char>>,
    pub pregap: Option<Frames>,
    pub postgap: Option<Frames>,
    pub comments: Seq<Seq<char>>,
    pub arranger: Option<Seq<char>>,
}

/// What a document holds, with strings and lists as sequences.
pub struct CueModel {
    pub catalog: Option<Seq<char>>,
    pub cd_text_file: Option<Seq<char>>,
    pub path: Option<Seq<char>>,
    pub format: FileFormat,
    pub performer: Option<Seq<char>>,
    pub songwriter: Option<Seq<char>>,
    pub arranger: Option<Seq<char>>,
    pub title: Option<Seq<char>>,
    pub tracks: Seq<TrackModel>,
    pub comments: Seq<Seq<char>>,
}

pub open spec fn opt_chars(o: Option<String>) -> Option<Seq<char>> {
    match o {
        Some(s) => Some(s@),
        None => None,
    }
}

pub open spec fn strings_view(v: Seq<String>) -> Seq<Seq<char>> {
    v.map_values(|s: String| s@)
}

pub open spec fn tracks_view(v: Seq<Track>) -> Seq<TrackModel> {
    v.map_values(|t: Track| t@)
}

/// A freshly declared track: its number and mode, nothing else.
pub open spec fn new_track_model(n: u8, mode: TrackMode) -> TrackModel {
    TrackModel {
        track_index: n,
        indices: Seq::empty(),
        time: None,
        flags: 0,
        mode,
        file: None,
        format: FileFormat::Unspecified,
        performer: None,
        songwriter: None,
        title: None,
        isrc: None,
        pregap: None,
        postgap: None,
        comments: Seq::empty(),
        arranger: None,
    }
}

/// A document with nothing set.
pub open spec fn empty_cue_model() -> CueModel {
    CueModel {
        catalog: None,
        cd_text_file: None,
        path: None,
        format: FileFormat::Unspecified,
        performer: None,
        songwriter: None,
        arranger: None,
        title: None,
        tracks: Seq::empty(),
        comments: Seq::empty(),
    }
}

impl View for Track {
    type V = TrackModel;

    open spec fn view(&self) -> TrackModel {
        TrackModel {
            track_index: self.track_index,
            indices: self.indices@,
            time: self.time,
            flags: self.flags.bits,
            mode: self.mode,
            file: opt_chars(self.file),
            format: self.format,
            performer: opt_chars(self.performer),
            songwriter: opt_chars(self.songwriter),
            title: opt_chars(self.title),
            isrc: opt_chars(self.isrc),
            pregap: self.pregap,
            postgap: self.postgap,
            comments: strings_view(self.comments@),
            arranger: opt_chars(self.arranger),
        }
    }
}

impl View for Cue {
    type V = CueModel;

    open spec fn view(&self) -> CueModel {
        CueModel {
            catalog: opt_chars(self.catalog),
            cd_text_file: opt_chars(self.cd_text_file),
            path: opt_chars(self.path),
            format: self.format,
            performer: opt_chars(self.performer),
            songwriter: opt_chars(self.songwriter),
            arranger: opt_chars(self.arranger),
            title: opt_chars(self.title),
            tracks: tracks_view(self.tracks@),
            comments: strings_view(self.comments@),
        }
    }
}

#[derive(Debug, Clone, Default)]
pub struct Track {
    pub track_index: u8,
    pub indices: Vec<TrackIndex>,
    pub time: Option<Frames>,
    pub flags: TrackFlags,
    pub mode: TrackMode,
    pub file: Option<String>,
    pub format: FileFormat,
    pub performer: Option<String>,
    pub songwriter: Option<String>,
    pub title: Option<String>,
    pub isrc: Option<String>,
    pub pregap: Option<Frames>,
    pub postgap: Option<Frames>,
    pub comments: Vec<String>,
    pub arranger: Option<String>,
}

impl Track {
    /// A track with the given number and mode and nothing else set.
    pub fn new(track_index: u8, mode: TrackMode) -> (r: Track)
        ensures
            r.track_index == track_index,
            r.mode == mode,
            r.indices@.len() == 0,
            r.time is None,
            r.flags.bits == 0,
            r.file is None,
            r.format == FileFormat::Unspecified,
            r.performer is None,
            r.songwriter is None,
            r.title is None,
            r.isrc is None,
            r.pregap is None,
            r.postgap is None,
            r.comments@.len() == 0,
            r.arranger is None,
            r@ == new_track_model(track_index, mode),
    {
        proof {
            assert(strings_view(Seq::<String>::empty()) =~= Seq::empty());
        }
        Track {
            track_index,
            indices: Vec::new(),
            time: None,
            flags: TrackFlags::empty(),
            mode,
            file: None,
            format: FileFormat::Unspecified,
            performer: None,
            songwriter: None,
            title: None,
            isrc: None,
            pregap: None,
            postgap: None,
            comments: Vec::new(),
            arranger: None,
        }
    }

    /// Sets the track's file and its format, leaving the rest as it was.
    pub fn set_file(&mut self, path: String, format: FileFormat)
        ensures
            *final(self) == (Track { file: Some(path), format: format, ..*old(self) }),
    {
        self.file = Some(path);
        self.format = format;
    }
}

#[derive(Debug, Clone, Default)]
pub struct Cue {
    pub catalog: Option<String>,
    pub cd_text_file: Option<String>,
    pub path: Option<String>,
    pub format: FileFormat,
    pub performer: Option<String>,
    pub songwriter: Option<String>,
    pub arranger: Option<String>,
    pub title: Option<String>,
    pub tracks: Vec<Track>,
    pub comments: Vec<String>,
}

impl Cue {
    /// A document with no field set, no track and no comment.
    pub fn empty() -> (r: Cue)
        ensures
            r.catalog is None,
            r.cd_text_file is None,
            r.path is None,
            r.format == FileFormat::Unspecified,
            r.performer is None,
            r.songwriter is None,
            r.arranger is None,
            r.title is None,
            r.tracks@.len() == 0,
            r.comments@.len() == 0,
            r@ == empty_cue_model(),
    {
        proof {
            assert(strings_view(Seq::<String>::empty()) =~= Seq::empty());
            assert(tracks_view(Seq::<Track>::empty()) =~= Seq::empty());
        }
        Cue {
            catalog: None,
            cd_text_file: None,
            path: None,
            format: FileFormat::Unspecified,
            performer: None,
            songwriter: None,
            arranger: None,
            title: None,
            tracks: Vec::new(),
            comments: Vec::new(),
        }
    }

}

impl Cue {
    /// Parses a whole CUE sheet.
    pub fn from_str(input: &str) -> (r: Result<Cue, Error>)
        ensures
            r is Ok <==> parser::spec_parse(input@) is Ok,
            r is Ok ==> r->Ok_0@ == parser::spec_parse(input@)->Ok_0,
            r is Err ==> r->Err_0->ParseError_0 == parser::spec_parse(input@)->Err_0,
    {
        parse_cue(input)
    }
}

/// The grammar rule at which a parse failed.
#[derive(Debug, Clone, Copy, PartialEq, Eq, Structural)]
pub enum Rule {
    Directive,
    String,
    Integer,
    Time,
    FileFormat,
    Flag,
    TrackMode,
    CatalogNumber,
    IsrcCode,
    TrackProperty,
    GlobalProperty,
}

/// Where and at which rule the input was rejected; line and column count from one.
#[derive(Debug, Clone, Copy, PartialEq, Eq, Structural)]
pub struct ParseError {
    pub line: usize,
    pub column: usize,
    pub rule: Rule,
}

#[derive(Debug, Clone, Copy, PartialEq, Eq, Structural)]
pub enum Error {
    ParseError(ParseError),
}

} // verus!
