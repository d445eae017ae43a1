use footprint::ingest::classify_file_name;
use footprint::ingest::ends_with;
use footprint::ingest::is_geo_string;
use footprint::ingest::split_geo_string;
use footprint::ingest::starts_with;
use footprint::ingest::LogFormat;
use footprint::ingest::COMMA;

fn format(name: &str) -> Option<LogFormat> {
    classify_file_name(name.as_bytes())
}

fn parts(text: &str) -> Option<(&str, &str)> {
    split_geo_string(text.as_bytes()).map(|comma| (&text[4..comma], &text[comma + 1..]))
}

#[test]
fn starts_with_agrees_with_the_standard_library() {
    let texts = ["", "g", "geo", "geo:", "geo:1,2", "Geo:1,2", " geo:1,2", "ge:o", "geo;"];
    let prefixes = ["", "g", "geo:", "geo:1,2", "geo:1,22"];
    for text in texts {
        for prefix in prefixes {
            assert_eq!(
                starts_with(text.as_bytes(), prefix.as_bytes()),
                text.starts_with(prefix),
                "{:?} {:?}",
                text,
                prefix
            );
        }
    }
}

#[test]
fn ends_with_agrees_with_the_standard_library() {
    let texts = ["", "x", ".gpx", "a.gpx", "a.gpx.gz", "a.gz", "gpx", "a.gpX", "a.gpx "];
    let suffixes = ["", "x", ".gpx", ".gz", ".gpx.gz", "a.gpx.gz", "ba.gpx.gz"];
    for text in texts {
        for suffix in suffixes {
            assert_eq!(
                ends_with(text.as_bytes(), suffix.as_bytes()),
                text.ends_with(suffix),
                "{:?} {:?}",
                text,
                suffix
            );
        }
    }
}

#[test]
fn gpx_files_are_told_by_their_suffix() {
    assert_eq!(format("ride.gpx"), Some(LogFormat::Gpx { gzipped: false }));
    assert_eq!(format(".gpx"), Some(LogFormat::Gpx { gzipped: false }));
    assert_eq!(format("ride.fit.gpx"), Some(LogFormat::Gpx { gzipped: false }));
    assert_eq!(format("ride.gpx.gz"), Some(LogFormat::Gpx { gzipped: true }));
    assert_eq!(format(".gpx.gz"), Some(LogFormat::Gpx { gzipped: true }));
    assert_eq!(format("a.gpx.gpx.gz"), Some(LogFormat::Gpx { gzipped: true }));
}

#[test]
fn fit_files_are_read_only_when_compressed() {
    assert_eq!(format("ride.fit.gz"), Some(LogFormat::Fit));
    assert_eq!(format(".fit.gz"), Some(LogFormat::Fit));
    assert_eq!(format("ride.fit"), None);
}

#[test]
fn other_files_are_not_read() {
    for name in [
        "",
        "gpx",
        "ride.GPX",
        "ride.gpx.bak",
        "ride.gz",
        "ride.gpx.gzip",
        "ride.tcx.gz",
        "location-history.json",
        "fit.gz",
        "ride.gpx ",
    ] {
        assert_eq!(format(name), None, "{:?}", name);
    }
}

#[test]
fn geo_strings_begin_with_the_prefix() {
    assert!(is_geo_string(b"geo:48.1,11.5"));
    assert!(is_geo_string(b"geo:"));
    assert!(!is_geo_string(b"geo"));
    assert!(!is_geo_string(b""));
    assert!(!is_geo_string(b"Geo:48.1,11.5"));
    assert!(!is_geo_string(b" geo:48.1,11.5"));
    assert!(!is_geo_string(b"48.1,11.5"));
}

#[test]
fn geo_string_is_parted_at_its_comma() {
    assert_eq!(COMMA, b',');
    assert_eq!(split_geo_string(b"geo:48.1,11.5"), Some(8));
    assert_eq!(parts("geo:48.137154,11.576124"), Some(("48.137154", "11.576124")));
    assert_eq!(parts("geo:-33.86,151.2"), Some(("-33.86", "151.2")));
    assert_eq!(parts("geo:,"), Some(("", "")));
    assert_eq!(parts("geo:1,"), Some(("1", "")));
    assert_eq!(parts("geo:,2"), Some(("", "2")));
    assert_eq!(parts("geo:a b,c;d"), Some(("a b", "c;d")));
    assert_eq!(parts("geo:48°,11°"), Some(("48°", "11°")));
}

#[test]
fn geo_string_needs_the_prefix_and_exactly_one_comma() {
    assert_eq!(split_geo_string(b""), None);
    assert_eq!(split_geo_string(b"geo"), None);
    assert_eq!(split_geo_string(b"geo:"), None);
    assert_eq!(split_geo_string(b"geo:48.1"), None);
    assert_eq!(split_geo_string(b"geo:48.1,11.5,520"), None);
    assert_eq!(split_geo_string(b"geo:,,"), None);
    assert_eq!(split_geo_string(b"48.1,11.5"), None);
    assert_eq!(split_geo_string(b"GEO:48.1,11.5"), None);
    assert_eq!(split_geo_string(b",geo:48.1"), None);
    assert_eq!(split_geo_string(b"ge,:48.1"), None);
}

#[test]
fn geo_string_parts_agree_with_splitting_behind_the_prefix() {
    let texts = [
        "geo:1,2",
        "geo:1,2,3",
        "geo:12",
        "geo:",
        "geo:,",
        "geo:,,",
        "geo:48.137154,11.576124",
        "geo:x,y",
    ];
    for text in texts {
        let pieces: Vec<&str> = text[4..].split(',').collect();
        let expected = if pieces.len() == 2 { Some((pieces[0], pieces[1])) } else { None };
        assert_eq!(parts(text), expected, "{:?}", text);
    }
}
