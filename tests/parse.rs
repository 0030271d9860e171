use cue_sheet::{parse_cue, Cue, Error, FileFormat, Frames, Rule, Track, TrackFlags, TrackMode};

const CUE_EXAMPLE: &str = "REM GENRE Rock\nREM DATE 1994\nCATALOG 0123456789012\nPERFORMER \"The Band\"\nTITLE \"The Album\"\nFILE \"album.bin\" BINARY\n  TRACK 01 AUDIO\n    TITLE \"First\"\n    PERFORMER \"The Band\"\n    FLAGS DCP PRE\n    ISRC USRC17607839\n    INDEX 01 00:00:00\n  TRACK 02 MODE1/2352\n    TITLE \"Second\"\n    PREGAP 00:02:00\n    INDEX 00 03:40:50\n    INDEX 01 03:42:50\n    POSTGAP 150\n";

#[test]
fn parse_example() {
    let res = parse_cue(CUE_EXAMPLE);
    match res {
        Ok(ref cue) => println!("{:#?}", cue),
        Err(ref e) => println!("{:?}", e),
    }
    assert!(res.is_ok())
}

#[test]
fn example_fields() {
    let cue = parse_cue(CUE_EXAMPLE).unwrap();
    assert_eq!(cue.catalog.as_deref(), Some("0123456789012"));
    assert_eq!(cue.performer.as_deref(), Some("The Band"));
    assert_eq!(cue.path.as_deref(), Some("album.bin"));
    assert_eq!(cue.format, FileFormat::Binary);
    assert_eq!(cue.comments, vec!["GENRE Rock".to_string(), "DATE 1994".to_string()]);
    assert_eq!(cue.tracks.len(), 2);
    let t = &cue.tracks[0];
    assert_eq!(t.flags.bits, TrackFlags::DIGITAL_COPY_PERMITTED | TrackFlags::PRE_EMPHASIS_ENABLED);
    assert_eq!(t.isrc.as_deref(), Some("USRC17607839"));
    let t = &cue.tracks[1];
    assert_eq!(t.track_index, 2);
    assert_eq!(t.mode, TrackMode::Mode1_2352);
    assert_eq!(t.pregap, Some(Frames(150)));
    assert_eq!(t.postgap, Some(Frames(150)));
    assert_eq!(t.indices.len(), 2);
    assert_eq!(t.indices[0].index, 0);
    assert_eq!(t.indices[0].time, Some(Frames::from_msf(3, 40, 50)));
    assert_eq!(t.indices[1].time, Some(Frames(16700)));
}

#[test]
fn minimal_document() {
    let cue = parse_cue("FILE \"a.wav\" WAVE\n  TRACK 01 AUDIO\n    INDEX 01 00:00:00\n").unwrap();
    assert_eq!(cue.path.as_deref(), Some("a.wav"));
    assert_eq!(cue.format, FileFormat::Wave);
    assert_eq!(cue.tracks.len(), 1);
    assert_eq!(cue.tracks[0].track_index, 1);
    assert_eq!(cue.tracks[0].mode, TrackMode::Audio);
    assert_eq!(cue.tracks[0].indices.len(), 1);
    assert_eq!(cue.tracks[0].indices[0].index, 1);
    assert_eq!(cue.tracks[0].indices[0].time, Some(Frames(0)));
}

#[test]
fn unknown_track_mode_fails() {
    let r = parse_cue("FILE \"a.wav\" WAVE\nTRACK 01 FOO\n");
    match r {
        Err(Error::ParseError(e)) => {
            assert_eq!(e.rule, Rule::TrackMode);
            assert_eq!(e.line, 2);
            assert_eq!(e.column, 10);
        }
        Ok(_) => panic!("accepted an unknown mode"),
    }
}

#[test]
fn empty_and_blank_input() {
    assert_eq!(parse_cue("").unwrap().tracks.len(), 0);
    assert_eq!(parse_cue("  \n\t\r\n").unwrap().tracks.len(), 0);
    let c = parse_cue("REM only a comment\n").unwrap();
    assert_eq!(c.tracks.len(), 0);
    assert_eq!(c.comments, vec!["only a comment".to_string()]);
}

#[test]
fn second_file_overwrites_first() {
    let c = parse_cue("FILE \"a.bin\" BINARY\nFILE b.wav WAVE\nTRACK 01 AUDIO\n").unwrap();
    assert_eq!(c.path.as_deref(), Some("b.wav"));
    assert_eq!(c.format, FileFormat::Wave);
}

#[test]
fn flags_accumulate() {
    let a = parse_cue("TRACK 01 AUDIO\nFLAGS DCP\nFLAGS 4CH\nFLAGS DCP\n").unwrap();
    let b = parse_cue("TRACK 01 AUDIO\nFLAGS 4CH DCP\n").unwrap();
    assert_eq!(a.tracks[0].flags, b.tracks[0].flags);
    assert_eq!(a.tracks[0].flags.bits, 6);
    assert!(a.tracks[0].flags.contains(TrackFlags::FOUR_CHANNEL));
    assert!(!a.tracks[0].flags.contains(TrackFlags::SERIAL_COPY_MANAGEMENT_SYSTEM));
}

#[test]
fn scalars_overwrite_lists_append() {
    let c = parse_cue("TITLE x\nTITLE y\nTRACK 03 CDG\nTITLE a\nTITLE b\nINDEX 01 5\nINDEX 02 7\nREM one\nREM two\n").unwrap();
    assert_eq!(c.title.as_deref(), Some("y"));
    let t = &c.tracks[0];
    assert_eq!(t.title.as_deref(), Some("b"));
    assert_eq!(t.indices.len(), 2);
    assert_eq!(t.indices[0].time, Some(Frames(5)));
    assert_eq!(t.indices[1].index, 2);
    assert_eq!(t.comments, vec!["one".to_string(), "two".to_string()]);
}

#[test]
fn bare_integer_time_is_frames() {
    let c = parse_cue("TRACK 01 AUDIO\nPREGAP 75\nINDEX 01\n").unwrap();
    assert_eq!(c.tracks[0].pregap, Some(Frames(75)));
    assert_eq!(c.tracks[0].indices[0].time, None);
}

#[test]
fn msf_round_trip() {
    assert_eq!(Frames::from_msf(1, 2, 3).0, 4653);
    assert_eq!(Frames::from_msf(12, 59, 74).to_msf(), (12, 59, 74));
    assert_eq!(Frames::new(75).to_msf(), (0, 1, 0));
}

#[test]
fn errors_are_located() {
    let rule = |s: &str| match parse_cue(s) {
        Err(Error::ParseError(e)) => e.rule,
        Ok(_) => panic!("accepted {s}"),
    };
    assert_eq!(rule("CATALOG 12\n"), Rule::CatalogNumber);
    assert_eq!(rule("FILE a.bin FOO\n"), Rule::FileFormat);
    assert_eq!(rule("TRACK 01 AUDIO\nFLAGS XYZ\n"), Rule::Flag);
    assert_eq!(rule("INDEX 01 00:00:00\n"), Rule::GlobalProperty);
    assert_eq!(rule("TRACK 01 AUDIO\nCATALOG 0123456789012\n"), Rule::TrackProperty);
    assert_eq!(rule("TRACK xx AUDIO\n"), Rule::Integer);
    assert_eq!(rule("TRACK 01 AUDIO\nINDEX 01 1:2\n"), Rule::Time);
    assert_eq!(rule("TITLE \"open\n"), Rule::String);
    assert_eq!(rule("BOGUS\n"), Rule::Directive);
    assert_eq!(rule("TRACK 01 AUDIO\nISRC ABC\n"), Rule::IsrcCode);
}

#[test]
fn track_helpers() {
    let mut t = Track::new(7, TrackMode::Cdi_2336);
    assert_eq!(t.track_index, 7);
    assert_eq!(t.format, FileFormat::Unspecified);
    t.set_file("x.aiff".to_string(), FileFormat::Aiff);
    assert_eq!(t.file.as_deref(), Some("x.aiff"));
    assert_eq!(t.format, FileFormat::Aiff);
    let c = Cue::from_str("TRACK 01 MODE2/2352\nFILE t.mp3 MP3\n").unwrap();
    assert_eq!(c.path, None);
    assert_eq!(c.tracks[0].file.as_deref(), Some("t.mp3"));
    assert_eq!(c.tracks[0].format, FileFormat::Mp3);
}

#[test]
fn frames_to_duration() {
    let d = Frames::new(76).to_duration();
    assert_eq!(d.as_secs(), 1);
    assert_eq!(d.subsec_nanos(), 13_333_333);
    assert_eq!(Frames::from_msf(2, 0, 0).to_duration().as_secs(), 120);
}

#[test]
fn track_directives_stay_in_track() {
    let c = parse_cue("PERFORMER \"A\"\nFILE \"a.wav\" WAVE\n  TRACK 01 AUDIO\n    PERFORMER \"B\"\n    INDEX 01 00:00:00\n").unwrap();
    assert_eq!(c.performer.as_deref(), Some("A"));
    assert_eq!(c.tracks[0].performer.as_deref(), Some("B"));
    assert_eq!(c.tracks[0].file, None);
}

#[test]
fn flags_before_track_fails() {
    match parse_cue("FLAGS DCP\nFILE \"a.wav\" WAVE\n  TRACK 01 AUDIO\n") {
        Err(Error::ParseError(e)) => {
            assert_eq!(e.rule, Rule::GlobalProperty);
            assert_eq!((e.line, e.column), (1, 1));
        }
        Ok(_) => panic!("accepted FLAGS before TRACK"),
    }
}

#[test]
fn defaults_are_empty() {
    let c = Cue::default();
    assert!(c.tracks.is_empty() && c.path.is_none());
    assert_eq!(c.format, FileFormat::Unspecified);
    assert_eq!(Track::default().mode, TrackMode::Audio);
    assert_eq!(TrackFlags::default().bits, 0);
}
