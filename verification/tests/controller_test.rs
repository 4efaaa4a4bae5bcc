use systeroid::config::Config;
use systeroid::controller::Sysctl;
use systeroid::document::{Document, Paragraph};
use systeroid::parameter::Parameter;
use systeroid::parser::SourceFile;
use systeroid::section::Section;

fn param(name: &str, value: &str) -> Parameter {
    Parameter::new(String::from(name), String::from(value), None)
}

fn doc(path: &str, paragraphs: &[(&str, &str)]) -> Document {
    Document::new(
        paragraphs
            .iter()
            .map(|(t, c)| Paragraph::new(String::from(*t), String::from(*c)))
            .collect(),
        String::from(path),
    )
}

#[test]
fn test_update_docs() {
    let mut sysctl = Sysctl::init(
        vec![
            param("vm.swappiness", "60"),
            param("kernel.hostname", "host"),
            param("vm.undocumented", "1"),
        ],
        Config::default(),
    );
    let docs = vec![
        doc(
            "admin-guide/sysctl/vm.rst",
            &[("swappiness", "Controls swapping.")],
        ),
        doc(
            "admin-guide/sysctl/kernel.rst",
            &[("hostname", "The machine name.")],
        ),
    ];
    sysctl.update_docs(&docs);
    assert_eq!(
        Some(String::from("Controls swapping.")),
        sysctl.parameters[0].description
    );
    assert_eq!("swappiness", sysctl.parameters[0].docs_title);
    assert_eq!("admin-guide/sysctl/vm.rst", sysctl.parameters[0].docs_path);
    assert_eq!(
        Some(String::from("The machine name.")),
        sysctl.parameters[1].description
    );
    assert!(sysctl.parameters[2].description.is_none());
    // Values are untouched by resolution.
    assert_eq!("60", sysctl.parameters[0].value);
}

#[test]
fn test_update_docs_section_scoping() {
    // A paragraph in another section's document never documents the parameter.
    let mut sysctl = Sysctl::init(vec![param("vm.swappiness", "60")], Config::default());
    let docs = vec![doc(
        "admin-guide/sysctl/kernel.rst",
        &[("swappiness", "Wrong section.")],
    )];
    sysctl.update_docs(&docs);
    assert!(sysctl.parameters[0].description.is_none());
}

#[test]
fn test_update_docs_first_match_wins() {
    let mut sysctl = Sysctl::init(vec![param("vm.swappiness", "60")], Config::default());
    let docs = vec![
        doc(
            "admin-guide/sysctl/vm.rst",
            &[
                ("unrelated", "Not this one."),
                ("swappiness", "First match."),
                ("swappiness again", "Shadowed."),
            ],
        ),
        doc(
            "admin-guide/sysctl/vm2.rst",
            &[("swappiness", "Later document.")],
        ),
    ];
    sysctl.update_docs(&docs);
    assert_eq!(
        Some(String::from("First match.")),
        sysctl.parameters[0].description
    );
    assert_eq!("swappiness", sysctl.parameters[0].docs_title);
    assert_eq!("admin-guide/sysctl/vm.rst", sysctl.parameters[0].docs_path);
}

#[test]
fn test_matcher_leaf_length_floor() {
    // A leaf name of length two never matches, even though a longer
    // superstring title and an exact-length title exist; a three-character
    // leaf matches as usual.
    let mut sysctl = Sysctl::init(
        vec![param("net.xy", "1"), param("net.abc", "2")],
        Config::default(),
    );
    let docs = vec![doc(
        "networking/net.rst",
        &[
            ("xyz", "Superstring title."),
            ("xy", "Exact-length title."),
            ("abc", "Three characters."),
        ],
    )];
    sysctl.update_docs(&docs);
    assert!(sysctl.parameters[0].description.is_none());
    assert_eq!(
        Some(String::from("Three characters.")),
        sysctl.parameters[1].description
    );
}

#[test]
fn test_resolution_determinism() {
    let docs = vec![doc(
        "admin-guide/sysctl/vm.rst",
        &[("swappiness", "Deterministic contents.")],
    )];
    let run = || {
        let mut sysctl = Sysctl::init(
            vec![param("vm.swappiness", "60"), param("vm.other", "1")],
            Config::default(),
        );
        sysctl.update_docs(&docs);
        sysctl
            .parameters
            .iter()
            .map(|p| {
                (
                    p.description.clone(),
                    p.docs_title.clone(),
                    p.docs_path.clone(),
                )
            })
            .collect::<Vec<_>>()
    };
    assert_eq!(run(), run());
}

#[test]
fn test_empty_documentation_root() {
    // With no documents at all, every parameter stays undocumented.
    let mut sysctl = Sysctl::init(
        vec![param("vm.swappiness", "60"), param("kernel.hostname", "host")],
        Config::default(),
    );
    sysctl.update_docs(&Vec::new());
    assert!(sysctl.parameters.iter().all(|p| p.description.is_none()));
}

#[test]
fn test_end_to_end_resolution() {
    // A fake documentation root with one file; the parameter ends up with the
    // file's paragraph, title and path, classified under `vm`.
    let parsers = systeroid::parser::default_parsers();
    let listing = vec![
        String::from("admin-guide/sysctl/index.rst"),
        String::from("admin-guide/sysctl/vm.rst"),
    ];
    let selected = parsers[0].select_files(&listing).expect("selection failed");
    let contents: Vec<SourceFile> = selected
        .iter()
        .map(|path| SourceFile {
            path: path.clone(),
            data: if path.ends_with("vm.rst") {
                b"\nzone_reclaim_mode\n==================\n\ntext...\n".to_vec()
            } else {
                b"no headings here\n".to_vec()
            },
        })
        .collect();
    let docs = parsers[0].parse_documents(&contents).expect("parse failed");

    let mut sysctl = Sysctl::init(
        vec![param("vm.zone_reclaim_mode", "0")],
        Config::default(),
    );
    sysctl.update_docs(&docs);
    let p = &sysctl.parameters[0];
    assert_eq!(Section::Vm, p.section);
    assert_eq!(Some(String::from("text...")), p.description);
    assert_eq!("zone_reclaim_mode", p.docs_title);
    assert_eq!("admin-guide/sysctl/vm.rst", p.docs_path);
}

#[test]
fn test_get_parameters() {
    let mut sysctl = Sysctl::init(
        vec![
            param("kernel.hostname", "host"),
            param("kernel.ostype", "Linux"),
            param("vm.swappiness", "60"),
        ],
        Config::default(),
    );
    sysctl.update_docs(&Vec::new());

    let by_name = sysctl.get_parameters("kernel.hostname");
    assert_eq!(1, by_name.len());
    assert_eq!("host", by_name[0].value);

    let by_leaf = sysctl.get_parameters("ostype");
    assert_eq!(1, by_leaf.len());
    assert_eq!("Linux", by_leaf[0].value);

    let by_section = sysctl.get_parameters("kernel");
    assert_eq!(2, by_section.len());

    let by_slash = sysctl.get_parameters("kernel/hostname");
    assert_eq!(1, by_slash.len());

    assert!(sysctl.get_parameters("---").is_empty());
}

#[test]
fn test_search() {
    let sysctl = Sysctl::init(
        vec![
            param("kernel.hostname", "host"),
            param("kernel.ostype", "Linux"),
            param("vm.swappiness", "60"),
        ],
        Config::default(),
    );
    let hits = sysctl.search("host");
    assert_eq!(1, hits.len());
    assert_eq!("kernel.hostname", hits[0].name);
    assert_eq!(3, sysctl.search("").len());
    assert!(sysctl.search("missing").is_empty());
}

#[test]
fn test_update_params_merge() {
    let mut sysctl = Sysctl::init(
        vec![param("kernel.hostname", "live-value")],
        Config::default(),
    );
    let cached = vec![Parameter {
        name: String::from("kernel.hostname"),
        value: String::new(),
        description: Some(String::from("The machine name.")),
        section: Section::Kernel,
        docs_path: String::from("admin-guide/sysctl/kernel.rst"),
        docs_title: String::from("hostname"),
    }];
    sysctl.update_params(cached);
    let p = &sysctl.parameters[0];
    assert_eq!("live-value", p.value);
    assert_eq!(Some(String::from("The machine name.")), p.description);
    assert_eq!("hostname", p.docs_title);
}

#[test]
fn test_init_skips_deprecated() {
    let params = vec![
        param("net.ipv4.neigh.default.base_reachable_time", "30"),
        param("net.ipv4.neigh.default.retrans_time", "100"),
        param("kernel.hostname", "host"),
    ];
    let sysctl = Sysctl::init(params, Config::default());
    assert_eq!(1, sysctl.parameters.len());
    assert_eq!("kernel.hostname", sysctl.parameters[0].name);

    let mut config = Config::default();
    config.display_deprecated = true;
    let params = vec![
        param("net.ipv4.neigh.default.base_reachable_time", "30"),
        param("kernel.hostname", "host"),
    ];
    let sysctl = Sysctl::init(params, config);
    assert_eq!(2, sysctl.parameters.len());
}
