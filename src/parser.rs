use vstd::prelude::*;

use crate::{Cue, CueModel, Error, FileFormat, Frames, ParseError, Rule, Track, TrackFlags, TrackIndex, TrackMode, TrackModel, msf_value, strings_view, tracks_view, new_track_model, empty_cue_model};

verus! {

/// A file reference: a path and the format named after it.
pub struct CueFile {
    pub path: String,
    pub format: FileFormat,
}

impl CueFile {
    pub fn new(path: String, format: FileFormat) -> (r: CueFile)
        ensures
            r.path == path,
            r.format == format,
    {
        CueFile { path, format }
    }
}

/// A directive of the section before the first track.
pub enum GlobalProperty {
    Catalog(String),
    CdTextFile(String),
    File(CueFile),
    Performer(String),
    Songwriter(String),
    Title(String),
    Rem(String),
    Arranger(String),
}

/// A directive inside a track block.
pub enum TrackProperty {
    File(CueFile),
    Flags(TrackFlags),
    Performer(String),
    SongWriter(String),
    Title(String),
    Index(TrackIndex),
    Isrc(String),
    PreGap(Frames),
    PostGap(Frames),
    Rem(String),
    Arranger(String),
}

/// The effect of one global directive: scalars are overwritten, comments appended.
pub open spec fn global_applied(c: Cue, p: GlobalProperty) -> Cue {
    match p {
        GlobalProperty::Catalog(s) => Cue { catalog: Some(s), ..c },
        GlobalProperty::CdTextFile(s) => Cue { cd_text_file: Some(s), ..c },
        GlobalProperty::File(f) => Cue { path: Some(f.path), format: f.format, ..c },
        GlobalProperty::Performer(s) => Cue { performer: Some(s), ..c },
        GlobalProperty::Songwriter(s) => Cue { songwriter: Some(s), ..c },
        GlobalProperty::Title(s) => Cue { title: Some(s), ..c },
        GlobalProperty::Arranger(s) => Cue { arranger: Some(s), ..c },
        GlobalProperty::Rem(s) => c,
    }
}

/// Applies one global directive to the document.
pub fn apply_global(cue: &mut Cue, p: GlobalProperty)
    ensures
        p is Rem ==> final(cue).comments@ == old(cue).comments@.push(p->Rem_0),
        p is Rem ==> (Cue { comments: old(cue).comments, ..*final(cue) }) == *old(cue),
        !(p is Rem) ==> *final(cue) == global_applied(*old(cue), p),
        final(cue)@ == cue_step(old(cue)@, global_dir(p)),
{
    proof {
        if p is Rem {
            assert(strings_view(cue.comments@.push(p->Rem_0)) =~= strings_view(cue.comments@).push(p->Rem_0@));
        }
    }
    match p {
        GlobalProperty::Catalog(s) => cue.catalog = Some(s),
        GlobalProperty::CdTextFile(s) => cue.cd_text_file = Some(s),
        GlobalProperty::File(f) => {
            cue.path = Some(f.path);
            cue.format = f.format;
        },
        GlobalProperty::Performer(s) => cue.performer = Some(s),
        GlobalProperty::Songwriter(s) => cue.songwriter = Some(s),
        GlobalProperty::Title(s) => cue.title = Some(s),
        GlobalProperty::Rem(s) => cue.comments.push(s),
        GlobalProperty::Arranger(s) => cue.arranger = Some(s),
    }
}

/// The effect of one track directive that neither appends nor accumulates.
pub open spec fn track_applied(t: Track, p: TrackProperty) -> Track {
    match p {
        TrackProperty::File(f) => Track { file: Some(f.path), format: f.format, ..t },
        TrackProperty::Flags(fl) => Track { flags: TrackFlags { bits: t.flags.bits | fl.bits }, ..t },
        TrackProperty::Performer(s) => Track { performer: Some(s), ..t },
        TrackProperty::SongWriter(s) => Track { songwriter: Some(s), ..t },
        TrackProperty::Title(s) => Track { title: Some(s), ..t },
        TrackProperty::Isrc(s) => Track { isrc: Some(s), ..t },
        TrackProperty::PreGap(g) => Track { pregap: Some(g), ..t },
        TrackProperty::PostGap(g) => Track { postgap: Some(g), ..t },
        TrackProperty::Arranger(s) => Track { arranger: Some(s), ..t },
        _ => t,
    }
}

/// Applies one track directive: scalars are overwritten, flags joined,
/// indices and comments appended.
pub fn apply_track(track: &mut Track, p: TrackProperty)
    ensures
        p is Index ==> final(track).indices@ == old(track).indices@.push(p->Index_0),
        p is Index ==> (Track { indices: old(track).indices, ..*final(track) }) == *old(track),
        p is Rem ==> final(track).comments@ == old(track).comments@.push(p->Rem_0),
        p is Rem ==> (Track { comments: old(track).comments, ..*final(track) }) == *old(track),
        !(p is Index) && !(p is Rem) ==> *final(track) == track_applied(*old(track), p),
        final(track)@ == track_step(old(track)@, track_dir(p)),
{
    proof {
        if p is Rem {
            assert(strings_view(track.comments@.push(p->Rem_0)) =~= strings_view(track.comments@).push(p->Rem_0@));
        }
    }
    match p {
        TrackProperty::File(f) => track.set_file(f.path, f.format),
        TrackProperty::Flags(fl) => track.flags = track.flags.union(fl),
        TrackProperty::Performer(s) => track.performer = Some(s),
        TrackProperty::SongWriter(s) => track.songwriter = Some(s),
        TrackProperty::Title(s) => track.title = Some(s),
        TrackProperty::Index(i) => track.indices.push(i),
        TrackProperty::Isrc(s) => track.isrc = Some(s),
        TrackProperty::PreGap(g) => track.pregap = Some(g),
        TrackProperty::PostGap(g) => track.postgap = Some(g),
        TrackProperty::Rem(s) => track.comments.push(s),
        TrackProperty::Arranger(s) => track.arranger = Some(s),
    }
}

/// FLAGS lines commute and repeat harmlessly: two in either order, or one
/// twice, leave the same flags as one line with their union.
pub proof fn lemma_flags_union(t: TrackModel, a: u8, b: u8)
    ensures
        track_step(track_step(t, Dir::Flags(a)), Dir::Flags(b)) == track_step(t, Dir::Flags(a | b)),
        track_step(track_step(t, Dir::Flags(a)), Dir::Flags(b))
            == track_step(track_step(t, Dir::Flags(b)), Dir::Flags(a)),
        track_step(track_step(t, Dir::Flags(a)), Dir::Flags(a)) == track_step(t, Dir::Flags(a)),
{
    let x = t.flags;
    assert((x | a) | b == x | (a | b)) by (bit_vector);
    assert((x | a) | b == (x | b) | a) by (bit_vector);
    assert((x | a) | a == x | a) by (bit_vector);
}

/// Whether two directives set the same scalar field.
pub open spec fn same_scalar_kind(a: Dir, b: Dir) -> bool {
    match (a, b) {
        (Dir::Catalog(_), Dir::Catalog(_)) => true,
        (Dir::CdTextFile(_), Dir::CdTextFile(_)) => true,
        (Dir::File(..), Dir::File(..)) => true,
        (Dir::Performer(_), Dir::Performer(_)) => true,
        (Dir::SongWriter(_), Dir::SongWriter(_)) => true,
        (Dir::Title(_), Dir::Title(_)) => true,
        (Dir::Arranger(_), Dir::Arranger(_)) => true,
        (Dir::Isrc(_), Dir::Isrc(_)) => true,
        (Dir::PreGap(_), Dir::PreGap(_)) => true,
        (Dir::PostGap(_), Dir::PostGap(_)) => true,
        _ => false,
    }
}

/// A later scalar directive overwrites an earlier one of the same kind, in
/// the document and in a track: the earlier one leaves no trace.
pub proof fn lemma_last_wins(c: CueModel, t: TrackModel, a: Dir, b: Dir)
    requires
        same_scalar_kind(a, b),
    ensures
        cue_step(cue_step(c, a), b) == cue_step(c, b),
        track_step(track_step(t, a), b) == track_step(t, b),
{
}

/// REM and INDEX lines accumulate in the order met; none overwrites another.
pub proof fn lemma_lists_accumulate(c: CueModel, t: TrackModel, x: Seq<char>, y: Seq<char>, i: TrackIndex, j: TrackIndex)
    ensures
        cue_step(cue_step(c, Dir::Rem(x)), Dir::Rem(y)).comments == c.comments.push(x).push(y),
        track_step(track_step(t, Dir::Rem(x)), Dir::Rem(y)).comments == t.comments.push(x).push(y),
        track_step(track_step(t, Dir::Index(i)), Dir::Index(j)).indices == t.indices.push(i).push(j),
{
}

pub open spec fn is_ws(c: char) -> bool {
    c == ' ' || c == '\t' || c == '\r'
}

pub open spec fn is_digit(c: char) -> bool {
    '0' <= c && c <= '9'
}

/// The number that a run of decimal digits denotes.
pub open spec fn digits_value(s: Seq<char>) -> int
    decreases s.len(),
{
    if s.len() == 0 {
        0
    } else {
        digits_value(s.drop_last()) * 10 + (s.last() as int - '0' as int)
    }
}

pub open spec fn all_digits(s: Seq<char>) -> bool {
    forall|i: int| 0 <= i < s.len() ==> is_digit(#[trigger] s[i])
}

/// Relies on String::push: the character is appended.
#[verifier::external_body]
fn push_char(s: &mut String, c: char)
    ensures
        final(s)@ == old(s)@.push(c),
{
    s.push(c);
}

/// The characters of a string, in order.
pub fn chars_of(s: &str) -> (r: Vec<char>)
    ensures
        r@ == s@,
{
    let mut out: Vec<char> = Vec::new();
    for c in it: s.chars()
        invariant
            out@ == it.seq().take(it.index() as int),
    {
        out.push(c);
    }
    out
}

fn slice_string(v: &Vec<char>, a: usize, b: usize) -> (r: String)
    requires
        a <= b <= v.len(),
    ensures
        r@ == v@.subrange(a as int, b as int),
{
    let mut s = String::new();
    let mut i = a;
    while i < b
        invariant
            a <= i <= b <= v.len(),
            s@ == v@.subrange(a as int, i as int),
        decreases b - i,
    {
        push_char(&mut s, v[i]);
        assert(v@.subrange(a as int, i + 1) == v@.subrange(a as int, i as int).push(v@[i as int]));
        i += 1;
    }
    s
}

/// Parses a run of decimal digits; `None` where it is empty, holds another
/// character, or does not fit.
pub fn parse_integer(v: &Vec<char>, a: usize, b: usize) -> (r: Option<usize>)
    requires
        a <= b <= v.len(),
    ensures
        r is Some <==> (a < b && all_digits(v@.subrange(a as int, b as int))
            && digits_value(v@.subrange(a as int, b as int)) <= usize::MAX),
        r is Some ==> r->0 == digits_value(v@.subrange(a as int, b as int)),
        r == num(v@, a as int, b as int),
{
    if a == b {
        return None;
    }
    let mut n: usize = 0;
    let mut i = a;
    let mut fits = true;
    while i < b
        invariant
            a <= i <= b <= v.len(),
            all_digits(v@.subrange(a as int, i as int)),
            fits ==> n == digits_value(v@.subrange(a as int, i as int)),
            !fits ==> digits_value(v@.subrange(a as int, i as int)) > usize::MAX,
        decreases b - i,
    {
        let c = v[i];
        let ghost pre = v@.subrange(a as int, i as int);
        let ghost post = v@.subrange(a as int, i + 1);
        assert(post.drop_last() == pre);
        if !('0' <= c && c <= '9') {
            assert(!all_digits(v@.subrange(a as int, b as int))) by {
                assert(v@.subrange(a as int, b as int)[i - a] == c);
            }
            return None;
        }
        proof {
            assert(digits_value(pre) >= 0) by { lemma_digits_nonneg(pre); }
        }
        let d = (c as u32 - '0' as u32) as usize;
        if fits && n <= (usize::MAX - d) / 10 {
            n = n * 10 + d;
        } else {
            fits = false;
        }
        i += 1;
    }
    if fits { Some(n) } else {
        assert(v@.subrange(a as int, b as int) == v@.subrange(a as int, i as int));
        None
    }
}

proof fn lemma_digits_nonneg(s: Seq<char>)
    requires
        all_digits(s),
    ensures
        digits_value(s) >= 0,
    decreases s.len(),
{
    if s.len() > 0 {
        assert(all_digits(s.drop_last()));
        lemma_digits_nonneg(s.drop_last());
    }
}


/// The first position at or after `i` that is not a blank, or `e`.
pub open spec fn ws_end(v: Seq<char>, i: int, e: int) -> int
    decreases e - i,
{
    if i < e && is_ws(v[i]) { ws_end(v, i + 1, e) } else { i }
}

/// The first position at or after `i` that is a blank, or `e`.
pub open spec fn word_stop(v: Seq<char>, i: int, e: int) -> int
    decreases e - i,
{
    if i < e && !is_ws(v[i]) { word_stop(v, i + 1, e) } else { i }
}

/// The first position at or after `i` that holds `c`, or `e`.
pub open spec fn char_stop(v: Seq<char>, i: int, e: int, c: char) -> int
    decreases e - i,
{
    if i < e && v[i] != c { char_stop(v, i + 1, e, c) } else { i }
}

/// The end of `v[a..b]` once trailing blanks are dropped.
pub open spec fn trim_back(v: Seq<char>, a: int, b: int) -> int
    decreases b - a,
{
    if a < b && is_ws(v[b - 1]) { trim_back(v, a, b - 1) } else { b }
}

/// The value of `w[a..b]` as a number, if it is one that fits.
pub open spec fn num(w: Seq<char>, a: int, b: int) -> Option<usize> {
    if is_number(w, a, b) { Some(digits_value(w.subrange(a, b)) as usize) } else { None }
}

/// The error at position `at` of the line `line` that starts at `ls`.
pub open spec fn perr(line: usize, ls: int, at: int, rule: Rule) -> ParseError {
    ParseError {
        line,
        column: if at - ls < usize::MAX { (at - ls + 1) as usize } else { (at - ls) as usize },
        rule,
    }
}

fn skip_ws(v: &Vec<char>, i: usize, end: usize) -> (r: usize)
    requires
        i <= end <= v.len(),
    ensures
        i <= r <= end,
        r < end ==> !is_ws(v@[r as int]),
        forall|k: int| i <= k < r ==> is_ws(#[trigger] v@[k]),
        r == ws_end(v@, i as int, end as int),
{
    let mut j = i;
    while j < end && (v[j] == ' ' || v[j] == '\t' || v[j] == '\r')
        invariant
            i <= j <= end <= v.len(),
            ws_end(v@, j as int, end as int) == ws_end(v@, i as int, end as int),
            forall|k: int| i <= k < j ==> is_ws(#[trigger] v@[k]),
        decreases end - j,
    {
        j += 1;
    }
    j
}

fn word_end(v: &Vec<char>, i: usize, end: usize) -> (r: usize)
    requires
        i <= end <= v.len(),
    ensures
        i <= r <= end,
        r < end ==> is_ws(v@[r as int]),
        i < end && !is_ws(v@[i as int]) ==> i < r,
        r == word_stop(v@, i as int, end as int),
{
    let mut j = i;
    while j < end && !(v[j] == ' ' || v[j] == '\t' || v[j] == '\r')
        invariant
            i <= j <= end <= v.len(),
            i < end && !is_ws(v@[i as int]) && j == i ==> j < end,
            word_stop(v@, j as int, end as int) == word_stop(v@, i as int, end as int),
        decreases end - j,
    {
        j += 1;
    }
    j
}

/// Whether `v[a..b]` spells `kw`.
fn word_is(v: &Vec<char>, a: usize, b: usize, kw: &[char]) -> (r: bool)
    requires
        a <= b <= v.len(),
    ensures
        r == (v@.subrange(a as int, b as int) == kw@),
{
    if b - a != kw.len() {
        return false;
    }
    let mut k: usize = 0;
    while k < kw.len()
        invariant
            a <= b <= v.len(),
            b - a == kw.len(),
            k <= kw.len(),
            forall|j: int| 0 <= j < k ==> v@[a + j] == kw@[j],
        decreases kw.len() - k,
    {
        if v[a + k] != kw[k] {
            assert(v@.subrange(a as int, b as int)[k as int] != kw@[k as int]);
            return false;
        }
        k += 1;
    }
    assert(v@.subrange(a as int, b as int) =~= kw@);
    true
}

/// The line being parsed: its number and where it starts.
pub struct Cursor {
    pub line: usize,
    pub line_start: usize,
}

fn err(c: &Cursor, at: usize, rule: Rule) -> (r: ParseError)
    requires
        at >= c.line_start,
    ensures
        r.line == c.line,
        r.column >= 1,
        at - c.line_start < usize::MAX ==> r.column == at - c.line_start + 1,
        r.rule == rule,
        r == perr(c.line, c.line_start as int, at as int, rule),
{
    let off = at - c.line_start;
    let column = if off < usize::MAX { off + 1 } else { off };
    ParseError { line: c.line, column, rule }
}

/// The mode that a keyword names, if any.
pub open spec fn mode_of(w: Seq<char>) -> Option<TrackMode> {
    if w == seq!['A', 'U', 'D', 'I', 'O'] {
        Some(TrackMode::Audio)
    } else if w == seq!['C', 'D', 'G'] {
        Some(TrackMode::Cdg)
    } else if w == seq!['M', 'O', 'D', 'E', '1', '/', '2', '0', '4', '8'] {
        Some(TrackMode::Mode1_2048)
    } else if w == seq!['M', 'O', 'D', 'E', '1', '/', '2', '3', '5', '2'] {
        Some(TrackMode::Mode1_2352)
    } else if w == seq!['M', 'O', 'D', 'E', '2', '/', '2', '3', '3', '6'] {
        Some(TrackMode::Mode2_2336)
    } else if w == seq!['M', 'O', 'D', 'E', '2', '/', '2', '3', '5', '2'] {
        Some(TrackMode::Mode2_2352)
    } else if w == seq!['C', 'D', 'I', '/', '2', '3', '3', '6'] {
        Some(TrackMode::Cdi_2336)
    } else if w == seq!['C', 'D', 'I', '/', '2', '3', '5', '2'] {
        Some(TrackMode::Cdi_2352)
    } else {
        None
    }
}

/// The format that a keyword names, if any.
pub open spec fn format_of(w: Seq<char>) -> Option<FileFormat> {
    if w == seq!['B', 'I', 'N', 'A', 'R', 'Y'] {
        Some(FileFormat::Binary)
    } else if w == seq!['M', 'O', 'T', 'O', 'R', 'O', 'L', 'A'] {
        Some(FileFormat::Motorola)
    } else if w == seq!['A', 'I', 'F', 'F'] {
        Some(FileFormat::Aiff)
    } else if w == seq!['W', 'A', 'V', 'E'] {
        Some(FileFormat::Wave)
    } else if w == seq!['M', 'P', '3'] {
        Some(FileFormat::Mp3)
    } else {
        None
    }
}

/// The flag bit that a keyword names, if any.
pub open spec fn flag_of(w: Seq<char>) -> Option<u8> {
    if w == seq!['D', 'C', 'P'] {
        Some(TrackFlags::DIGITAL_COPY_PERMITTED)
    } else if w == seq!['4', 'C', 'H'] {
        Some(TrackFlags::FOUR_CHANNEL)
    } else if w == seq!['P', 'R', 'E'] {
        Some(TrackFlags::PRE_EMPHASIS_ENABLED)
    } else if w == seq!['S', 'C', 'M', 'S'] {
        Some(TrackFlags::SERIAL_COPY_MANAGEMENT_SYSTEM)
    } else {
        None
    }
}

/// The mode that a track-mode keyword names.
pub fn track_mode(v: &Vec<char>, a: usize, b: usize) -> (r: Option<TrackMode>)
    requires
        a <= b <= v.len(),
    ensures
        r == mode_of(v@.subrange(a as int, b as int)),
{
    if word_is(v, a, b, &['A', 'U', 'D', 'I', 'O']) {
        Some(TrackMode::Audio)
    } else if word_is(v, a, b, &['C', 'D', 'G']) {
        Some(TrackMode::Cdg)
    } else if word_is(v, a, b, &['M', 'O', 'D', 'E', '1', '/', '2', '0', '4', '8']) {
        Some(TrackMode::Mode1_2048)
    } else if word_is(v, a, b, &['M', 'O', 'D', 'E', '1', '/', '2', '3', '5', '2']) {
        Some(TrackMode::Mode1_2352)
    } else if word_is(v, a, b, &['M', 'O', 'D', 'E', '2', '/', '2', '3', '3', '6']) {
        Some(TrackMode::Mode2_2336)
    } else if word_is(v, a, b, &['M', 'O', 'D', 'E', '2', '/', '2', '3', '5', '2']) {
        Some(TrackMode::Mode2_2352)
    } else if word_is(v, a, b, &['C', 'D', 'I', '/', '2', '3', '3', '6']) {
        Some(TrackMode::Cdi_2336)
    } else if word_is(v, a, b, &['C', 'D', 'I', '/', '2', '3', '5', '2']) {
        Some(TrackMode::Cdi_2352)
    } else {
        None
    }
}

/// The format that a file-format keyword names.
pub fn file_format(v: &Vec<char>, a: usize, b: usize) -> (r: Option<FileFormat>)
    requires
        a <= b <= v.len(),
    ensures
        r == format_of(v@.subrange(a as int, b as int)),
{
    if word_is(v, a, b, &['B', 'I', 'N', 'A', 'R', 'Y']) {
        Some(FileFormat::Binary)
    } else if word_is(v, a, b, &['M', 'O', 'T', 'O', 'R', 'O', 'L', 'A']) {
        Some(FileFormat::Motorola)
    } else if word_is(v, a, b, &['A', 'I', 'F', 'F']) {
        Some(FileFormat::Aiff)
    } else if word_is(v, a, b, &['W', 'A', 'V', 'E']) {
        Some(FileFormat::Wave)
    } else if word_is(v, a, b, &['M', 'P', '3']) {
        Some(FileFormat::Mp3)
    } else {
        None
    }
}

/// The flag bit that a flag keyword names.
pub fn flag(v: &Vec<char>, a: usize, b: usize) -> (r: Option<u8>)
    requires
        a <= b <= v.len(),
    ensures
        r == flag_of(v@.subrange(a as int, b as int)),
{
    if word_is(v, a, b, &['D', 'C', 'P']) {
        Some(TrackFlags::DIGITAL_COPY_PERMITTED)
    } else if word_is(v, a, b, &['4', 'C', 'H']) {
        Some(TrackFlags::FOUR_CHANNEL)
    } else if word_is(v, a, b, &['P', 'R', 'E']) {
        Some(TrackFlags::PRE_EMPHASIS_ENABLED)
    } else if word_is(v, a, b, &['S', 'C', 'M', 'S']) {
        Some(TrackFlags::SERIAL_COPY_MANAGEMENT_SYSTEM)
    } else {
        None
    }
}

/// Whether `w[a..b]` is a run of decimal digits whose value fits in `usize`.
pub open spec fn is_number(w: Seq<char>, a: int, b: int) -> bool {
    a < b && all_digits(w.subrange(a, b)) && digits_value(w.subrange(a, b)) <= usize::MAX
}

/// The time that `v[a..b]` denotes: a bare number counts frames; `m:s:f`
/// gives `msf_value(m, s, f)` where that fits.
pub open spec fn time_spec(v: Seq<char>, a: int, b: int) -> Option<Frames> {
    let c1 = char_stop(v, a, b, ':');
    if c1 >= b {
        match num(v, a, b) {
            Some(n) => Some(Frames(n)),
            None => None,
        }
    } else {
        let c2 = char_stop(v, c1 + 1, b, ':');
        if c2 >= b {
            None
        } else {
            match (num(v, a, c1), num(v, c1 + 1, c2), num(v, c2 + 1, b)) {
                (Some(m), Some(s), Some(f)) => if m <= usize::MAX / 60 && m * 60 <= usize::MAX - s
                    && m * 60 + s <= (usize::MAX - f) / 75 {
                    Some(Frames(msf_value(m as int, s as int, f as int) as usize))
                } else {
                    None
                },
                _ => None,
            }
        }
    }
}

/// Parses a time token: `m:s:f`, or a bare integer that counts frames.
pub fn parse_time(v: &Vec<char>, a: usize, b: usize) -> (r: Option<Frames>)
    requires
        a <= b <= v.len(),
    ensures
        (a < b && all_digits(v@.subrange(a as int, b as int))
            && digits_value(v@.subrange(a as int, b as int)) <= usize::MAX) ==> r == Some(
            Frames(digits_value(v@.subrange(a as int, b as int)) as usize),
        ),
        forall|i: int, j: int|
            #![trigger v@[i], v@[j]]
            a < i < j < b && v@[i] == ':' && v@[j] == ':' && is_number(v@, a as int, i)
                && is_number(v@, i + 1, j) && is_number(v@, j + 1, b as int) && msf_value(
                digits_value(v@.subrange(a as int, i)),
                digits_value(v@.subrange(i + 1, j)),
                digits_value(v@.subrange(j + 1, b as int)),
            ) <= usize::MAX ==> r == Some(
                Frames(
                    msf_value(
                        digits_value(v@.subrange(a as int, i)),
                        digits_value(v@.subrange(i + 1, j)),
                        digits_value(v@.subrange(j + 1, b as int)),
                    ) as usize,
                ),
            ),
        r == time_spec(v@, a as int, b as int),
{
    let mut c1 = a;
    while c1 < b && v[c1] != ':'
        invariant
            a <= c1 <= b <= v.len(),
            forall|k: int| a <= k < c1 ==> v@[k] != ':',
            char_stop(v@, c1 as int, b as int, ':') == char_stop(v@, a as int, b as int, ':'),
        decreases b - c1,
    {
        c1 += 1;
    }
    if c1 == b {
        return match parse_integer(v, a, b) {
            Some(n) => Some(Frames::new(n)),
            None => None,
        };
    }
    assert(!all_digits(v@.subrange(a as int, b as int))) by {
        assert(v@.subrange(a as int, b as int)[c1 - a] == ':');
    }
    let mut c2 = c1 + 1;
    while c2 < b && v[c2] != ':'
        invariant
            c1 < c2 <= b <= v.len(),
            forall|k: int| c1 < k < c2 ==> v@[k] != ':',
            char_stop(v@, c2 as int, b as int, ':') == char_stop(v@, c1 + 1, b as int, ':'),
        decreases b - c2,
    {
        c2 += 1;
    }
    assert forall|i: int, j: int|
        a < i < j < b && v@[i] == ':' && v@[j] == ':' && is_number(v@, a as int, i)
            && is_number(v@, i + 1, j) implies i == c1 && j == c2 by {
        if i > c1 {
            assert(v@.subrange(a as int, i)[c1 - a] == ':');
        }
        if j > c2 {
            assert(v@.subrange(i + 1, j)[c2 - i - 1] == ':');
        }
    }
    if c2 == b {
        return None;
    }
    let m = parse_integer(v, a, c1);
    let s = parse_integer(v, c1 + 1, c2);
    let f = parse_integer(v, c2 + 1, b);
    match (m, s, f) {
        (Some(m), Some(s), Some(f)) => {
            if m <= usize::MAX / 60 && m * 60 <= usize::MAX - s && (m * 60 + s) <= (usize::MAX
                - f) / 75 {
                assert((m * 60 + s) * 75 + f <= usize::MAX) by (nonlinear_arith)
                    requires
                        (m * 60 + s) <= (usize::MAX - f) / 75,
                        f <= usize::MAX,
                ;
                Some(Frames::from_msf(m, s, f))
            } else {
                None
            }
        },
        _ => None,
    }
}


/// What one directive line says, with its strings as sequences.
pub enum Dir {
    Track(u8, TrackMode),
    Catalog(Seq<char>),
    CdTextFile(Seq<char>),
    File(Seq<char>, FileFormat),
    Performer(Seq<char>),
    SongWriter(Seq<char>),
    Title(Seq<char>),
    Arranger(Seq<char>),
    Rem(Seq<char>),
    Flags(u8),
    Index(TrackIndex),
    Isrc(Seq<char>),
    PreGap(Frames),
    PostGap(Frames),
}

/// One parsed directive line.
pub enum Directive {
    Track(u8, TrackMode),
    Catalog(String),
    CdTextFile(String),
    File(String, FileFormat),
    Performer(String),
    SongWriter(String),
    Title(String),
    Arranger(String),
    Rem(String),
    Flags(u8),
    Index(TrackIndex),
    Isrc(String),
    PreGap(Frames),
    PostGap(Frames),
}

impl View for Directive {
    type V = Dir;

    open spec fn view(&self) -> Dir {
        match *self {
            Directive::Track(n, m) => Dir::Track(n, m),
            Directive::Catalog(s) => Dir::Catalog(s@),
            Directive::CdTextFile(s) => Dir::CdTextFile(s@),
            Directive::File(s, f) => Dir::File(s@, f),
            Directive::Performer(s) => Dir::Performer(s@),
            Directive::SongWriter(s) => Dir::SongWriter(s@),
            Directive::Title(s) => Dir::Title(s@),
            Directive::Arranger(s) => Dir::Arranger(s@),
            Directive::Rem(s) => Dir::Rem(s@),
            Directive::Flags(b) => Dir::Flags(b),
            Directive::Index(i) => Dir::Index(i),
            Directive::Isrc(s) => Dir::Isrc(s@),
            Directive::PreGap(g) => Dir::PreGap(g),
            Directive::PostGap(g) => Dir::PostGap(g),
        }
    }
}

/// A string argument starting at or after `i`: the text between a pair of
/// quotes, or else the bare word; with the position after it.
pub open spec fn string_spec(v: Seq<char>, line: usize, ls: int, i: int, le: int) -> Result<
    (Seq<char>, int),
    ParseError,
> {
    let j = ws_end(v, i, le);
    if j >= le {
        Err(perr(line, ls, j, Rule::String))
    } else if v[j] == '"' {
        let q = char_stop(v, j + 1, le, '"');
        if q >= le {
            Err(perr(line, ls, j, Rule::String))
        } else {
            Ok((v.subrange(j + 1, q), q + 1))
        }
    } else {
        let k = word_stop(v, j, le);
        Ok((v.subrange(j, k), k))
    }
}

/// The error for anything but blanks after position `i` of the line, if any.
pub open spec fn trailing_spec(v: Seq<char>, line: usize, ls: int, i: int, le: int) -> Option<ParseError> {
    let j = ws_end(v, i, le);
    if j < le { Some(perr(line, ls, j, Rule::Directive)) } else { None }
}

pub open spec fn is_alnum(c: char) -> bool {
    is_digit(c) || ('A' <= c && c <= 'Z') || ('a' <= c && c <= 'z')
}

pub open spec fn all_alnum(s: Seq<char>) -> bool {
    forall|i: int| 0 <= i < s.len() ==> is_alnum(#[trigger] s[i])
}

/// The flags named by the words from `i` to the end of the line, joined to `acc`.
pub open spec fn flags_spec(v: Seq<char>, line: usize, ls: int, i: int, le: int, acc: u8) -> Result<u8, ParseError>
    decreases le - i,
{
    if i >= le {
        Ok(acc)
    } else {
        let b = word_stop(v, i, le);
        match flag_of(v.subrange(i, b)) {
            Some(bit) => {
                let n = ws_end(v, b, le);
                if i < n <= le { flags_spec(v, line, ls, n, le, acc | bit) } else { Ok(acc | bit) }
            },
            None => Err(perr(line, ls, i, Rule::Flag)),
        }
    }
}

/// The flags of a FLAGS line whose keyword ends at `kb`: at least one is owed.
pub open spec fn flags_line_spec(v: Seq<char>, line: usize, ls: int, kb: int, le: int) -> Result<u8, ParseError> {
    let i = ws_end(v, kb, le);
    if i >= le {
        Err(perr(line, ls, i, Rule::Flag))
    } else {
        flags_spec(v, line, ls, i, le, 0)
    }
}

pub open spec fn with_end(r: Dir, v: Seq<char>, line: usize, ls: int, i: int, le: int) -> Result<Dir, ParseError> {
    match trailing_spec(v, line, ls, i, le) {
        Some(e) => Err(e),
        None => Ok(r),
    }
}

/// A TRACK line: its number and mode.
pub open spec fn track_line_spec(v: Seq<char>, line: usize, ls: int, kb: int, le: int) -> Result<Dir, ParseError> {
    let na = ws_end(v, kb, le);
    let nb = word_stop(v, na, le);
    let ma = ws_end(v, nb, le);
    let mb = word_stop(v, ma, le);
    match num(v, na, nb) {
        None => Err(perr(line, ls, na, Rule::Integer)),
        Some(n) => match mode_of(v.subrange(ma, mb)) {
            None => Err(perr(line, ls, ma, Rule::TrackMode)),
            Some(m) => with_end(Dir::Track(n as u8, m), v, line, ls, mb, le),
        },
    }
}

/// An INDEX line: its number and, where one follows, its time.
pub open spec fn index_line_spec(v: Seq<char>, line: usize, ls: int, kb: int, le: int) -> Result<Dir, ParseError> {
    let na = ws_end(v, kb, le);
    let nb = word_stop(v, na, le);
    let ta = ws_end(v, nb, le);
    let tb = word_stop(v, ta, le);
    match num(v, na, nb) {
        None => Err(perr(line, ls, na, Rule::Integer)),
        Some(index) => if ta >= le {
            Ok(Dir::Index(TrackIndex { index, time: None }))
        } else {
            match time_spec(v, ta, tb) {
                None => Err(perr(line, ls, ta, Rule::Time)),
                Some(t) => with_end(Dir::Index(TrackIndex { index, time: Some(t) }), v, line, ls, tb, le),
            }
        },
    }
}

/// A FILE line: its path and the format named after it, if any.
pub open spec fn file_line_spec(v: Seq<char>, line: usize, ls: int, kb: int, le: int) -> Result<Dir, ParseError> {
    match string_spec(v, line, ls, kb, le) {
        Err(e) => Err(e),
        Ok((path, i)) => {
            let fa = ws_end(v, i, le);
            let fb = word_stop(v, fa, le);
            if fa >= le {
                Ok(Dir::File(path, FileFormat::Unspecified))
            } else {
                match format_of(v.subrange(fa, fb)) {
                    None => Err(perr(line, ls, fa, Rule::FileFormat)),
                    Some(f) => with_end(Dir::File(path, f), v, line, ls, fb, le),
                }
            }
        },
    }
}

/// The directive that the line `v[ls..le]` states, whose keyword is `v[ka..kb]`.
pub open spec fn dir_spec(v: Seq<char>, line: usize, ls: int, ka: int, kb: int, le: int) -> Result<Dir, ParseError> {
    let w = v.subrange(ka, kb);
    if w == seq!['R', 'E', 'M'] {
        let a = ws_end(v, kb, le);
        Ok(Dir::Rem(v.subrange(a, trim_back(v, a, le))))
    } else if w == seq!['T', 'R', 'A', 'C', 'K'] {
        track_line_spec(v, line, ls, kb, le)
    } else if w == seq!['C', 'A', 'T', 'A', 'L', 'O', 'G'] {
        let a = ws_end(v, kb, le);
        let b = word_stop(v, a, le);
        if b - a != 13 || !all_digits(v.subrange(a, b)) {
            Err(perr(line, ls, a, Rule::CatalogNumber))
        } else {
            with_end(Dir::Catalog(v.subrange(a, b)), v, line, ls, b, le)
        }
    } else if w == seq!['I', 'S', 'R', 'C'] {
        let a = ws_end(v, kb, le);
        let b = word_stop(v, a, le);
        if b - a != 12 || !all_alnum(v.subrange(a, b)) {
            Err(perr(line, ls, a, Rule::IsrcCode))
        } else {
            with_end(Dir::Isrc(v.subrange(a, b)), v, line, ls, b, le)
        }
    } else if w == seq!['F', 'L', 'A', 'G', 'S'] {
        match flags_line_spec(v, line, ls, kb, le) {
            Ok(bits) => Ok(Dir::Flags(bits)),
            Err(e) => Err(e),
        }
    } else if w == seq!['I', 'N', 'D', 'E', 'X'] {
        index_line_spec(v, line, ls, kb, le)
    } else if w == seq!['P', 'R', 'E', 'G', 'A', 'P'] || w == seq!['P', 'O', 'S', 'T', 'G', 'A', 'P'] {
        let ta = ws_end(v, kb, le);
        let tb = word_stop(v, ta, le);
        match time_spec(v, ta, tb) {
            None => Err(perr(line, ls, ta, Rule::Time)),
            Some(t) => with_end(
                if w == seq!['P', 'R', 'E', 'G', 'A', 'P'] { Dir::PreGap(t) } else { Dir::PostGap(t) },
                v, line, ls, tb, le,
            ),
        }
    } else if w == seq!['F', 'I', 'L', 'E'] {
        file_line_spec(v, line, ls, kb, le)
    } else if w == seq!['C', 'D', 'T', 'E', 'X', 'T', 'F', 'I', 'L', 'E'] || w == seq![
        'P', 'E', 'R', 'F', 'O', 'R', 'M', 'E', 'R'] || w == seq!['S', 'O', 'N', 'G', 'W', 'R', 'I', 'T', 'E', 'R']
        || w == seq!['T', 'I', 'T', 'L', 'E'] || w == seq!['A', 'R', 'R', 'A', 'N', 'G', 'E', 'R'] {
        match string_spec(v, line, ls, kb, le) {
            Err(e) => Err(e),
            Ok((t, i)) => with_end(
                if w == seq!['C', 'D', 'T', 'E', 'X', 'T', 'F', 'I', 'L', 'E'] {
                    Dir::CdTextFile(t)
                } else if w == seq!['P', 'E', 'R', 'F', 'O', 'R', 'M', 'E', 'R'] {
                    Dir::Performer(t)
                } else if w == seq!['S', 'O', 'N', 'G', 'W', 'R', 'I', 'T', 'E', 'R'] {
                    Dir::SongWriter(t)
                } else if w == seq!['T', 'I', 'T', 'L', 'E'] {
                    Dir::Title(t)
                } else {
                    Dir::Arranger(t)
                },
                v, line, ls, i, le,
            ),
        }
    } else {
        Err(perr(line, ls, ka, Rule::Directive))
    }
}

/// Reads a quoted string or a bare word; returns it and the position after it.
fn read_string(v: &Vec<char>, c: &Cursor, i: usize, le: usize) -> (r: Result<(String, usize), ParseError>)
    requires
        c.line_start <= i <= le <= v.len(),
    ensures
        r is Ok ==> i <= r->Ok_0.1 <= le,
        r is Ok <==> string_spec(v@, c.line, c.line_start as int, i as int, le as int) is Ok,
        r is Ok ==> (r->Ok_0.0@, r->Ok_0.1 as int) == string_spec(v@, c.line, c.line_start as int, i as int, le as int)->Ok_0,
        r is Err ==> r->Err_0 == string_spec(v@, c.line, c.line_start as int, i as int, le as int)->Err_0,
{
    let j = skip_ws(v, i, le);
    if j == le {
        return Err(err(c, j, Rule::String));
    }
    if v[j] == '"' {
        let mut q = j + 1;
        while q < le && v[q] != '"'
            invariant
                j < q <= le <= v.len(),
                char_stop(v@, q as int, le as int, '"') == char_stop(v@, j + 1, le as int, '"'),
            decreases le - q,
        {
            q += 1;
        }
        if q == le {
            return Err(err(c, j, Rule::String));
        }
        Ok((slice_string(v, j + 1, q), q + 1))
    } else {
        let k = word_end(v, j, le);
        Ok((slice_string(v, j, k), k))
    }
}

/// Fails unless only blanks remain on the line.
fn expect_end(v: &Vec<char>, c: &Cursor, i: usize, le: usize) -> (r: Result<(), ParseError>)
    requires
        c.line_start <= i <= le <= v.len(),
    ensures
        r is Err <==> trailing_spec(v@, c.line, c.line_start as int, i as int, le as int) is Some,
        r is Err ==> r->Err_0 == trailing_spec(v@, c.line, c.line_start as int, i as int, le as int)->0,
{
    let j = skip_ws(v, i, le);
    if j < le {
        Err(err(c, j, Rule::Directive))
    } else {
        Ok(())
    }
}

fn all_digits_in(v: &Vec<char>, a: usize, b: usize) -> (r: bool)
    requires
        a <= b <= v.len(),
    ensures
        r == all_digits(v@.subrange(a as int, b as int)),
{
    let mut i = a;
    while i < b
        invariant
            a <= i <= b <= v.len(),
            forall|k: int| a <= k < i ==> is_digit(#[trigger] v@[k]),
        decreases b - i,
    {
        let ch = v[i];
        if !('0' <= ch && ch <= '9') {
            assert(!is_digit(v@.subrange(a as int, b as int)[i - a]));
            return false;
        }
        i += 1;
    }
    assert forall|k: int| 0 <= k < b - a implies is_digit(#[trigger] v@.subrange(a as int, b as int)[k]) by {
        assert(v@.subrange(a as int, b as int)[k] == v@[a + k]);
    }
    true
}

fn all_alnum_in(v: &Vec<char>, a: usize, b: usize) -> (r: bool)
    requires
        a <= b <= v.len(),
    ensures
        r == all_alnum(v@.subrange(a as int, b as int)),
{
    let mut i = a;
    while i < b
        invariant
            a <= i <= b <= v.len(),
            forall|k: int| a <= k < i ==> is_alnum(#[trigger] v@[k]),
        decreases b - i,
    {
        let ch = v[i];
        if !(('0' <= ch && ch <= '9') || ('A' <= ch && ch <= 'Z') || ('a' <= ch && ch <= 'z')) {
            assert(!is_alnum(v@.subrange(a as int, b as int)[i - a]));
            return false;
        }
        i += 1;
    }
    assert forall|k: int| 0 <= k < b - a implies is_alnum(#[trigger] v@.subrange(a as int, b as int)[k]) by {
        assert(v@.subrange(a as int, b as int)[k] == v@[a + k]);
    }
    true
}


/// Parses the number and mode of a TRACK line.
fn parse_track_line(v: &Vec<char>, c: &Cursor, kb: usize, le: usize) -> (r: Result<Directive, ParseError>)
    requires
        c.line_start <= kb <= le <= v.len(),
    ensures
        r is Ok <==> track_line_spec(v@, c.line, c.line_start as int, kb as int, le as int) is Ok,
        r is Ok ==> r->Ok_0@ == track_line_spec(v@, c.line, c.line_start as int, kb as int, le as int)->Ok_0,
        r is Err ==> r->Err_0 == track_line_spec(v@, c.line, c.line_start as int, kb as int, le as int)->Err_0,
{
    let na = skip_ws(v, kb, le);
    let nb = word_end(v, na, le);
    let n = match parse_integer(v, na, nb) {
        Some(n) => n,
        None => return Err(err(c, na, Rule::Integer)),
    };
    let ma = skip_ws(v, nb, le);
    let mb = word_end(v, ma, le);
    let mode = match track_mode(v, ma, mb) {
        Some(m) => m,
        None => return Err(err(c, ma, Rule::TrackMode)),
    };
    expect_end(v, c, mb, le)?;
    return Ok(Directive::Track(n as u8, mode));
}

/// Parses the number and optional time of an INDEX line.
fn parse_index_line(v: &Vec<char>, c: &Cursor, kb: usize, le: usize) -> (r: Result<Directive, ParseError>)
    requires
        c.line_start <= kb <= le <= v.len(),
    ensures
        r is Ok <==> index_line_spec(v@, c.line, c.line_start as int, kb as int, le as int) is Ok,
        r is Ok ==> r->Ok_0@ == index_line_spec(v@, c.line, c.line_start as int, kb as int, le as int)->Ok_0,
        r is Err ==> r->Err_0 == index_line_spec(v@, c.line, c.line_start as int, kb as int, le as int)->Err_0,
{
    let na = skip_ws(v, kb, le);
    let nb = word_end(v, na, le);
    let index = match parse_integer(v, na, nb) {
        Some(n) => n,
        None => return Err(err(c, na, Rule::Integer)),
    };
    let ta = skip_ws(v, nb, le);
    if ta == le {
    return Ok(Directive::Index(TrackIndex { index, time: None }));
    }
    let tb = word_end(v, ta, le);
    let time = match parse_time(v, ta, tb) {
        Some(t) => t,
        None => return Err(err(c, ta, Rule::Time)),
    };
    expect_end(v, c, tb, le)?;
    return Ok(Directive::Index(TrackIndex { index, time: Some(time) }));
}

/// Parses the path and optional format of a FILE line.
fn parse_file_line(v: &Vec<char>, c: &Cursor, kb: usize, le: usize) -> (r: Result<Directive, ParseError>)
    requires
        c.line_start <= kb <= le <= v.len(),
    ensures
        r is Ok <==> file_line_spec(v@, c.line, c.line_start as int, kb as int, le as int) is Ok,
        r is Ok ==> r->Ok_0@ == file_line_spec(v@, c.line, c.line_start as int, kb as int, le as int)->Ok_0,
        r is Err ==> r->Err_0 == file_line_spec(v@, c.line, c.line_start as int, kb as int, le as int)->Err_0,
{
    let (path, i) = read_string(v, c, kb, le)?;
    let fa = skip_ws(v, i, le);
    if fa == le {
    return Ok(Directive::File(path, FileFormat::Unspecified));
    }
    let fb = word_end(v, fa, le);
    let format = match file_format(v, fa, fb) {
        Some(f) => f,
        None => return Err(err(c, fa, Rule::FileFormat)),
    };
    expect_end(v, c, fb, le)?;
    return Ok(Directive::File(path, format));
}

/// Parses the flag words of a FLAGS line whose keyword ends at `kb`.
fn parse_flags(v: &Vec<char>, c: &Cursor, kb: usize, le: usize) -> (r: Result<u8, ParseError>)
    requires
        c.line_start <= kb <= le <= v.len(),
    ensures
        r == flags_line_spec(v@, c.line, c.line_start as int, kb as int, le as int),
{
    let mut flags = TrackFlags::empty();
    let i0 = skip_ws(v, kb, le);
    if i0 == le {
        return Err(err(c, i0, Rule::Flag));
    }
    assert(flags_line_spec(v@, c.line, c.line_start as int, kb as int, le as int)
        == flags_spec(v@, c.line, c.line_start as int, i0 as int, le as int, 0));
    let mut i = i0;
    while i < le
        invariant
            c.line_start <= kb <= i <= le <= v.len(),
            i < le ==> !is_ws(v@[i as int]),
            flags_spec(v@, c.line, c.line_start as int, i as int, le as int, flags.bits)
                == flags_spec(v@, c.line, c.line_start as int, i0 as int, le as int, 0),
            flags_line_spec(v@, c.line, c.line_start as int, kb as int, le as int)
                == flags_spec(v@, c.line, c.line_start as int, i0 as int, le as int, 0),
        decreases le - i,
    {
        let b = word_end(v, i, le);
        match flag(v, i, b) {
            Some(bit) => flags = flags.union(TrackFlags { bits: bit }),
            None => {
                assert(flags_spec(v@, c.line, c.line_start as int, i as int, le as int, flags.bits)
                    == Err::<u8, ParseError>(perr(c.line, c.line_start as int, i as int, Rule::Flag)));
                return Err(err(c, i, Rule::Flag));
            },
        }
        i = skip_ws(v, b, le);
    }
    Ok(flags.bits)
}

/// Parses one non-blank line whose keyword spans `v[ka..kb]`.
#[verifier::rlimit(100)]
pub fn parse_directive(v: &Vec<char>, c: &Cursor, ka: usize, kb: usize, le: usize) -> (r: Result<
    Directive,
    ParseError,
>)
    requires
        c.line_start <= ka < kb <= le <= v.len(),
    ensures
        r is Ok <==> dir_spec(v@, c.line, c.line_start as int, ka as int, kb as int, le as int) is Ok,
        r is Ok ==> r->Ok_0@ == dir_spec(v@, c.line, c.line_start as int, ka as int, kb as int, le as int)->Ok_0,
        r is Err ==> r->Err_0 == dir_spec(v@, c.line, c.line_start as int, ka as int, kb as int, le as int)->Err_0,
{
    if word_is(v, ka, kb, &['R', 'E', 'M']) {
        let a = skip_ws(v, kb, le);
        let mut b = le;
        while b > a && (v[b - 1] == ' ' || v[b - 1] == '\t' || v[b - 1] == '\r')
            invariant
                a <= b <= le <= v.len(),
                trim_back(v@, a as int, b as int) == trim_back(v@, a as int, le as int),
            decreases b,
        {
            b -= 1;
        }
        return Ok(Directive::Rem(slice_string(v, a, b)));
    }
    if word_is(v, ka, kb, &['T', 'R', 'A', 'C', 'K']) {
        return parse_track_line(v, c, kb, le);
    }
    if word_is(v, ka, kb, &['C', 'A', 'T', 'A', 'L', 'O', 'G']) {
        let a = skip_ws(v, kb, le);
        let b = word_end(v, a, le);
        if b - a != 13 || !all_digits_in(v, a, b) {
            return Err(err(c, a, Rule::CatalogNumber));
        }
        expect_end(v, c, b, le)?;
        return Ok(Directive::Catalog(slice_string(v, a, b)));
    }
    if word_is(v, ka, kb, &['I', 'S', 'R', 'C']) {
        let a = skip_ws(v, kb, le);
        let b = word_end(v, a, le);
        if b - a != 12 || !all_alnum_in(v, a, b) {
            return Err(err(c, a, Rule::IsrcCode));
        }
        expect_end(v, c, b, le)?;
        return Ok(Directive::Isrc(slice_string(v, a, b)));
    }
    if word_is(v, ka, kb, &['F', 'L', 'A', 'G', 'S']) {
        let bits = parse_flags(v, c, kb, le)?;
        return Ok(Directive::Flags(bits));
    }
    if word_is(v, ka, kb, &['I', 'N', 'D', 'E', 'X']) {
        return parse_index_line(v, c, kb, le);
    }
    let pregap = word_is(v, ka, kb, &['P', 'R', 'E', 'G', 'A', 'P']);
    if pregap || word_is(v, ka, kb, &['P', 'O', 'S', 'T', 'G', 'A', 'P']) {
        let ta = skip_ws(v, kb, le);
        let tb = word_end(v, ta, le);
        let time = match parse_time(v, ta, tb) {
            Some(t) => t,
            None => return Err(err(c, ta, Rule::Time)),
        };
        expect_end(v, c, tb, le)?;
        return Ok(
            if pregap {
                Directive::PreGap(time)
            } else {
                Directive::PostGap(time)
            },
        );
    }
    if word_is(v, ka, kb, &['F', 'I', 'L', 'E']) {
        return parse_file_line(v, c, kb, le);
    }
    let cdtext = word_is(v, ka, kb, &['C', 'D', 'T', 'E', 'X', 'T', 'F', 'I', 'L', 'E']);
    let performer = word_is(v, ka, kb, &['P', 'E', 'R', 'F', 'O', 'R', 'M', 'E', 'R']);
    let songwriter = word_is(v, ka, kb, &['S', 'O', 'N', 'G', 'W', 'R', 'I', 'T', 'E', 'R']);
    let title = word_is(v, ka, kb, &['T', 'I', 'T', 'L', 'E']);
    let arranger = word_is(v, ka, kb, &['A', 'R', 'R', 'A', 'N', 'G', 'E', 'R']);
    if !(cdtext || performer || songwriter || title || arranger) {
        return Err(err(c, ka, Rule::Directive));
    }
    let (text, i) = read_string(v, c, kb, le)?;
    expect_end(v, c, i, le)?;
    if cdtext {
        Ok(Directive::CdTextFile(text))
    } else if performer {
        Ok(Directive::Performer(text))
    } else if songwriter {
        Ok(Directive::SongWriter(text))
    } else if title {
        Ok(Directive::Title(text))
    } else {
        Ok(Directive::Arranger(text))
    }
}


/// The directive that a global directive states.
pub open spec fn global_dir(p: GlobalProperty) -> Dir {
    match p {
        GlobalProperty::Catalog(s) => Dir::Catalog(s@),
        GlobalProperty::CdTextFile(s) => Dir::CdTextFile(s@),
        GlobalProperty::File(f) => Dir::File(f.path@, f.format),
        GlobalProperty::Performer(s) => Dir::Performer(s@),
        GlobalProperty::Songwriter(s) => Dir::SongWriter(s@),
        GlobalProperty::Title(s) => Dir::Title(s@),
        GlobalProperty::Rem(s) => Dir::Rem(s@),
        GlobalProperty::Arranger(s) => Dir::Arranger(s@),
    }
}

/// The directive that a track directive states.
pub open spec fn track_dir(p: TrackProperty) -> Dir {
    match p {
        TrackProperty::File(f) => Dir::File(f.path@, f.format),
        TrackProperty::Flags(fl) => Dir::Flags(fl.bits),
        TrackProperty::Performer(s) => Dir::Performer(s@),
        TrackProperty::SongWriter(s) => Dir::SongWriter(s@),
        TrackProperty::Title(s) => Dir::Title(s@),
        TrackProperty::Index(i) => Dir::Index(i),
        TrackProperty::Isrc(s) => Dir::Isrc(s@),
        TrackProperty::PreGap(g) => Dir::PreGap(g),
        TrackProperty::PostGap(g) => Dir::PostGap(g),
        TrackProperty::Rem(s) => Dir::Rem(s@),
        TrackProperty::Arranger(s) => Dir::Arranger(s@),
    }
}

/// A directive applied to the document: scalars overwritten, comments appended.
pub open spec fn cue_step(m: CueModel, d: Dir) -> CueModel {
    match d {
        Dir::Catalog(s) => CueModel { catalog: Some(s), ..m },
        Dir::CdTextFile(s) => CueModel { cd_text_file: Some(s), ..m },
        Dir::File(p, f) => CueModel { path: Some(p), format: f, ..m },
        Dir::Performer(s) => CueModel { performer: Some(s), ..m },
        Dir::SongWriter(s) => CueModel { songwriter: Some(s), ..m },
        Dir::Title(s) => CueModel { title: Some(s), ..m },
        Dir::Arranger(s) => CueModel { arranger: Some(s), ..m },
        Dir::Rem(s) => CueModel { comments: m.comments.push(s), ..m },
        _ => m,
    }
}

/// A directive applied to a track: scalars overwritten, flags joined,
/// indices and comments appended.
pub open spec fn track_step(t: TrackModel, d: Dir) -> TrackModel {
    match d {
        Dir::File(p, f) => TrackModel { file: Some(p), format: f, ..t },
        Dir::Flags(b) => TrackModel { flags: t.flags | b, ..t },
        Dir::Performer(s) => TrackModel { performer: Some(s), ..t },
        Dir::SongWriter(s) => TrackModel { songwriter: Some(s), ..t },
        Dir::Title(s) => TrackModel { title: Some(s), ..t },
        Dir::Index(i) => TrackModel { indices: t.indices.push(i), ..t },
        Dir::Isrc(s) => TrackModel { isrc: Some(s), ..t },
        Dir::PreGap(g) => TrackModel { pregap: Some(g), ..t },
        Dir::PostGap(g) => TrackModel { postgap: Some(g), ..t },
        Dir::Rem(s) => TrackModel { comments: t.comments.push(s), ..t },
        Dir::Arranger(s) => TrackModel { arranger: Some(s), ..t },
        _ => t,
    }
}

/// Where a parse stands between lines: the document so far, the finished
/// tracks, and the track being filled.
pub struct ParseState {
    pub cue: CueModel,
    pub tracks: Seq<TrackModel>,
    pub cur: Option<TrackModel>,
}

pub open spec fn closed_tracks(st: ParseState) -> Seq<TrackModel> {
    match st.cur {
        Some(t) => st.tracks.push(t),
        None => st.tracks,
    }
}

/// The document once the last line is read.
pub open spec fn finish(st: ParseState) -> CueModel {
    CueModel { tracks: closed_tracks(st), ..st.cue }
}

/// One directive taken in: TRACK opens a track; CATALOG and CDTEXTFILE belong
/// before the first track, FLAGS, INDEX, ISRC, PREGAP and POSTGAP inside one;
/// the rest go to the open track if there is one, else to the document.
pub open spec fn line_step(st: ParseState, d: Dir, line: usize, ls: int, ka: int) -> Result<ParseState, ParseError> {
    match d {
        Dir::Track(n, m) => Ok(ParseState { tracks: closed_tracks(st), cur: Some(new_track_model(n, m)), ..st }),
        Dir::Catalog(_) | Dir::CdTextFile(_) => if st.cur is Some {
            Err(perr(line, ls, ka, Rule::TrackProperty))
        } else {
            Ok(ParseState { cue: cue_step(st.cue, d), ..st })
        },
        Dir::Flags(_) | Dir::Index(_) | Dir::Isrc(_) | Dir::PreGap(_) | Dir::PostGap(_) => if st.cur is None {
            Err(perr(line, ls, ka, Rule::GlobalProperty))
        } else {
            Ok(ParseState { cur: Some(track_step(st.cur->0, d)), ..st })
        },
        _ => if st.cur is Some {
            Ok(ParseState { cur: Some(track_step(st.cur->0, d)), ..st })
        } else {
            Ok(ParseState { cue: cue_step(st.cue, d), ..st })
        },
    }
}

/// The parse of `v` from the line that starts at `ls`, numbered `line`.
pub open spec fn parse_from(v: Seq<char>, ls: int, line: usize, st: ParseState) -> Result<CueModel, ParseError>
    decreases v.len() - ls,
{
    if ls >= v.len() {
        Ok(finish(st))
    } else {
        let le = char_stop(v, ls, v.len() as int, '\n');
        let ka = ws_end(v, ls, le);
        let step = if ka < le {
            match dir_spec(v, line, ls, ka, word_stop(v, ka, le), le) {
                Err(e) => Err(e),
                Ok(d) => line_step(st, d, line, ls, ka),
            }
        } else {
            Ok(st)
        };
        match step {
            Err(e) => Err(e),
            Ok(st2) => {
                let next = if le >= v.len() { v.len() as int } else { le + 1 };
                let line2 = if line < usize::MAX { (line + 1) as usize } else { line };
                if ls < next <= v.len() { parse_from(v, next, line2, st2) } else { Ok(finish(st2)) }
            },
        }
    }
}

/// The document that a CUE sheet's text states, or the first error in it.
pub open spec fn spec_parse(s: Seq<char>) -> Result<CueModel, ParseError> {
    parse_from(s, 0, 1, ParseState { cue: empty_cue_model(), tracks: Seq::empty(), cur: None })
}

pub open spec fn state_of(cue: Cue, tracks: Seq<Track>, cur: Option<Track>) -> ParseState {
    ParseState {
        cue: cue@,
        tracks: tracks_view(tracks),
        cur: match cur {
            Some(t) => Some(t@),
            None => None,
        },
    }
}

pub open spec fn is_global_only(d: Dir) -> bool {
    d is Catalog || d is CdTextFile
}

pub open spec fn is_track_only(d: Dir) -> bool {
    d is Flags || d is Index || d is Isrc || d is PreGap || d is PostGap
}

fn to_global(d: Directive) -> (r: GlobalProperty)
    requires
        !(d@ is Track) && !is_track_only(d@),
    ensures
        global_dir(r) == d@,
{
    match d {
        Directive::Catalog(s) => GlobalProperty::Catalog(s),
        Directive::CdTextFile(s) => GlobalProperty::CdTextFile(s),
        Directive::File(p, f) => GlobalProperty::File(CueFile::new(p, f)),
        Directive::Performer(s) => GlobalProperty::Performer(s),
        Directive::SongWriter(s) => GlobalProperty::Songwriter(s),
        Directive::Title(s) => GlobalProperty::Title(s),
        Directive::Arranger(s) => GlobalProperty::Arranger(s),
        Directive::Rem(s) => GlobalProperty::Rem(s),
        Directive::Track(..) | Directive::Flags(_) | Directive::Index(_) | Directive::Isrc(_)
        | Directive::PreGap(_) | Directive::PostGap(_) => {
            assert(false);
            GlobalProperty::Rem(String::new())
        },
    }
}

fn to_track(d: Directive) -> (r: TrackProperty)
    requires
        !(d@ is Track) && !is_global_only(d@),
    ensures
        track_dir(r) == d@,
{
    match d {
        Directive::File(p, f) => TrackProperty::File(CueFile::new(p, f)),
        Directive::Performer(s) => TrackProperty::Performer(s),
        Directive::SongWriter(s) => TrackProperty::SongWriter(s),
        Directive::Title(s) => TrackProperty::Title(s),
        Directive::Arranger(s) => TrackProperty::Arranger(s),
        Directive::Rem(s) => TrackProperty::Rem(s),
        Directive::Flags(b) => TrackProperty::Flags(TrackFlags { bits: b }),
        Directive::Index(i) => TrackProperty::Index(i),
        Directive::Isrc(s) => TrackProperty::Isrc(s),
        Directive::PreGap(g) => TrackProperty::PreGap(g),
        Directive::PostGap(g) => TrackProperty::PostGap(g),
        Directive::Track(..) | Directive::Catalog(_) | Directive::CdTextFile(_) => {
            assert(false);
            TrackProperty::Rem(String::new())
        },
    }
}

/// Which section a directive may stand in: 0 for TRACK, 1 for the global
/// section only, 2 for a track only, 3 for either.
fn scope(d: &Directive) -> (r: u8)
    ensures
        r == 0 <==> d@ is Track,
        r == 1 <==> is_global_only(d@),
        r == 2 <==> is_track_only(d@),
        r == 3 <==> !(d@ is Track) && !is_global_only(d@) && !is_track_only(d@),
{
    match d {
        Directive::Track(..) => 0,
        Directive::Catalog(_) | Directive::CdTextFile(_) => 1,
        Directive::Flags(_) | Directive::Index(_) | Directive::Isrc(_) | Directive::PreGap(_)
        | Directive::PostGap(_) => 2,
        _ => 3,
    }
}

/// Parses a CUE sheet: a global section of directives, then zero or more
/// track blocks, each a `TRACK` line followed by the track's directives.
/// Blank lines are skipped, so input with no directive is a document with
/// no track. Any malformed line fails the whole parse with its position.
pub fn parse_cue(input: &str) -> (r: Result<Cue, Error>)
    ensures
        r is Ok <==> spec_parse(input@) is Ok,
        r is Ok ==> r->Ok_0@ == spec_parse(input@)->Ok_0,
        r is Err ==> r->Err_0->ParseError_0 == spec_parse(input@)->Err_0,
{
    let v = chars_of(input);
    let n = v.len();
    let mut cue = Cue::empty();
    let mut tracks: Vec<Track> = Vec::new();
    let mut current: Option<Track> = None;
    let mut ls: usize = 0;
    let mut line: usize = 1;
    proof {
        assert(tracks_view(tracks@) =~= Seq::empty());
    }
    while ls < n
        invariant
            n == v.len(),
            ls <= n,
            v@ == input@,
            parse_from(v@, ls as int, line, state_of(cue, tracks@, current)) == spec_parse(input@),
        decreases n - ls,
    {
        let ghost st = state_of(cue, tracks@, current);
        let mut le = ls;
        while le < n && v[le] != '\n'
            invariant
                ls <= le <= n == v.len(),
                char_stop(v@, le as int, n as int, '\n') == char_stop(v@, ls as int, n as int, '\n'),
            decreases n - le,
        {
            le += 1;
        }
        let c = Cursor { line, line_start: ls };
        let ka = skip_ws(&v, ls, le);
        if ka < le {
            let kb = word_end(&v, ka, le);
            let d = match parse_directive(&v, &c, ka, kb, le) {
                Ok(d) => d,
                Err(e) => return Err(Error::ParseError(e)),
            };
            let ghost dv = d@;
            let k = scope(&d);
            if k == 0 {
                match d {
                    Directive::Track(num, mode) => {
                        match current {
                            Some(prev) => {
                                proof {
                                    assert(tracks_view(tracks@.push(prev)) =~= tracks_view(tracks@).push(prev@));
                                }
                                tracks.push(prev);
                            },
                            None => {},
                        }
                        current = Some(Track::new(num, mode));
                    },
                    _ => {},
                }
            } else if k == 1 {
                if current.is_some() {
                    return Err(Error::ParseError(err(&c, ka, Rule::TrackProperty)));
                }
                apply_global(&mut cue, to_global(d));
            } else if k == 2 {
                match current {
                    Some(mut t) => {
                        apply_track(&mut t, to_track(d));
                        current = Some(t);
                    },
                    None => return Err(Error::ParseError(err(&c, ka, Rule::GlobalProperty))),
                }
            } else {
                match current {
                    Some(mut t) => {
                        apply_track(&mut t, to_track(d));
                        current = Some(t);
                    },
                    None => apply_global(&mut cue, to_global(d)),
                }
            }
            assert(state_of(cue, tracks@, current) == line_step(st, dv, line, ls as int, ka as int)->Ok_0);
        }
        if le == n {
            ls = n;
        } else {
            ls = le + 1;
        }
        if line < usize::MAX {
            line += 1;
        }
    }
    let ghost st = state_of(cue, tracks@, current);
    match current {
        Some(t) => {
            proof {
                assert(tracks_view(tracks@.push(t)) =~= tracks_view(tracks@).push(t@));
            }
            tracks.push(t);
        },
        None => {},
    }
    cue.tracks = tracks;
    assert(cue@ == finish(st));
    Ok(cue)
}

} // verus!
