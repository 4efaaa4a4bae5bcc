use systeroid::segment::SectionPattern;

#[test]
fn test_segment_rst() {
    let text = "\nswappiness\n==========\n\nControls swap aggressiveness.\n\nzone_reclaim_mode\n=================\n\nzone_reclaim_mode is disabled by default.\n";
    let paragraphs = SectionPattern::RstHeading.segment(text);
    assert_eq!(2, paragraphs.len());
    assert_eq!("swappiness", paragraphs[0].title);
    assert_eq!("Controls swap aggressiveness.", paragraphs[0].contents);
    assert_eq!("zone_reclaim_mode", paragraphs[1].title);
    assert_eq!(
        "zone_reclaim_mode is disabled by default.",
        paragraphs[1].contents
    );
}

#[test]
fn test_segment_rst_no_match() {
    let text = "Just some prose.\nNothing resembling a heading here.\n";
    let paragraphs = SectionPattern::RstHeading.segment(text);
    assert_eq!(0, paragraphs.len());
}

#[test]
fn test_segment_rst_needs_blank_line() {
    // Without the leading empty line the heading grammar does not apply.
    let text = "swappiness\n==========\n\nbody\n";
    let paragraphs = SectionPattern::RstHeading.segment(text);
    assert_eq!(0, paragraphs.len());
}

#[test]
fn test_segment_rst_empty_contents() {
    let text = "\nfirst\n=====\n\n\nsecond\n======\n\ntail\n";
    let paragraphs = SectionPattern::RstHeading.segment(text);
    assert_eq!(2, paragraphs.len());
    assert_eq!("first", paragraphs[0].title);
    assert_eq!("", paragraphs[0].contents);
    assert_eq!("second", paragraphs[1].title);
    assert_eq!("tail", paragraphs[1].contents);
}

#[test]
fn test_segment_dash() {
    let text = "somaxconn - Limit of socket listen backlog.\n\nDetails here.\n\nrmem_default - The default setting of the socket receive buffer.\nMore details.\n";
    let paragraphs = SectionPattern::DashHeading.segment(text);
    assert_eq!(2, paragraphs.len());
    assert_eq!(
        "somaxconn - Limit of socket listen backlog.",
        paragraphs[0].title
    );
    assert_eq!("Details here.", paragraphs[0].contents);
    assert_eq!(
        "rmem_default - The default setting of the socket receive buffer.",
        paragraphs[1].title
    );
    assert_eq!("More details.", paragraphs[1].contents);
}

#[test]
fn test_segment_dash_rejects_short_forms() {
    // No ` - ` separator, description not starting with a letter, empty name.
    let text = "name- description\nname - 1number\n - description\n";
    let paragraphs = SectionPattern::DashHeading.segment(text);
    assert_eq!(0, paragraphs.len());
}

#[test]
fn test_segmentation_round_trip_scenario() {
    // A synthetic document of three headings and bodies; segmentation yields
    // exactly the three bodies back, trimmed.
    let titles = ["alpha", "beta two", "gamma"];
    let bodies = ["first body", "  second body  ", "third body"];
    let mut text = String::new();
    for i in 0..titles.len() {
        text.push_str("\n");
        text.push_str(titles[i]);
        text.push_str("\n==\n\n");
        text.push_str(bodies[i]);
        text.push_str("\n");
    }
    let paragraphs = SectionPattern::RstHeading.segment(&text);
    assert_eq!(titles.len(), paragraphs.len());
    for i in 0..titles.len() {
        assert_eq!(titles[i], paragraphs[i].title);
        assert_eq!(bodies[i].trim(), paragraphs[i].contents);
    }
}
