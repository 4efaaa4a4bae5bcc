use systeroid::error::Error;
use systeroid::glob::glob_matches;
use systeroid::parser::{default_parsers, Parser, SourceFile};
use systeroid::segment::SectionPattern;

fn listing(values: &[&str]) -> Vec<String> {
    values.iter().map(|v| String::from(*v)).collect()
}

#[test]
fn test_glob_matches() {
    assert!(glob_matches("admin-guide/sysctl/*.rst*", "admin-guide/sysctl/vm.rst"));
    assert!(glob_matches("admin-guide/sysctl/*.rst*", "admin-guide/sysctl/vm.rst.gz"));
    assert!(!glob_matches("admin-guide/sysctl/*.rst*", "admin-guide/sysctl/sub/vm.rst"));
    assert!(!glob_matches("admin-guide/sysctl/*.rst*", "networking/ip-sysctl.rst"));
    assert!(glob_matches("networking/*-sysctl.txt*", "networking/ip-sysctl.txt.gz"));
    assert!(glob_matches("*", "abc"));
    assert!(!glob_matches("*", "a/b"));
}

#[test]
fn test_select_files() {
    let parsers = default_parsers();
    let files = listing(&[
        "admin-guide/sysctl/index.rst",
        "admin-guide/sysctl/vm.rst",
        "admin-guide/sysctl/kernel.rst.gz",
        "networking/ip-sysctl.rst",
        "networking/unrelated.txt",
        "README",
    ]);
    let general = parsers[0].select_files(&files).expect("selection failed");
    assert_eq!(
        vec![
            String::from("admin-guide/sysctl/index.rst"),
            String::from("admin-guide/sysctl/vm.rst"),
            String::from("admin-guide/sysctl/kernel.rst.gz"),
        ],
        general
    );
    let net = parsers[1].select_files(&files).expect("selection failed");
    assert_eq!(vec![String::from("networking/ip-sysctl.rst")], net);
}

#[test]
fn test_select_files_empty() {
    let parsers = default_parsers();
    let files = listing(&["README", "unrelated/path.txt"]);
    let result = parsers[0].select_files(&files);
    assert!(matches!(result, Err(Error::EmptyFileListError)));
}

#[test]
fn test_select_files_missing_required() {
    let parsers = default_parsers();
    let files = listing(&["admin-guide/sysctl/vm.rst"]);
    let result = parsers[0].select_files(&files);
    match result {
        Err(Error::MissingFileError(name)) => assert_eq!("index.rst", name),
        _ => panic!("expected a missing-file error"),
    }
}

#[test]
fn test_parse_documents() {
    let parser = Parser::new(
        vec![String::from("*.rst")],
        Vec::new(),
        SectionPattern::RstHeading,
    );
    let files = vec![SourceFile {
        path: String::from("vm.rst"),
        data: b"\nswappiness\n==========\n\nHow aggressively to swap.\n".to_vec(),
    }];
    let docs = parser.parse_documents(&files).expect("parse failed");
    assert_eq!(1, docs.len());
    assert_eq!("vm.rst", docs[0].path);
    assert_eq!(1, docs[0].paragraphs.len());
    assert_eq!("swappiness", docs[0].paragraphs[0].title);
    assert_eq!("How aggressively to swap.", docs[0].paragraphs[0].contents);
}

#[test]
fn test_parse_documents_gzip() {
    let raw = b"\nswappiness\n==========\n\nCompressed documentation body.\n";
    let mut encoder =
        flate2::write::GzEncoder::new(Vec::new(), flate2::Compression::default());
    std::io::Write::write_all(&mut encoder, raw).expect("compression failed");
    let data = encoder.finish().expect("compression failed");

    let parser = Parser::new(
        vec![String::from("*.rst.gz")],
        Vec::new(),
        SectionPattern::RstHeading,
    );
    let files = vec![SourceFile {
        path: String::from("vm.rst.gz"),
        data,
    }];
    let docs = parser.parse_documents(&files).expect("parse failed");
    assert_eq!(1, docs.len());
    assert_eq!("Compressed documentation body.", docs[0].paragraphs[0].contents);
}

#[test]
fn test_parse_documents_bad_gzip() {
    let parser = Parser::new(
        vec![String::from("*.gz")],
        Vec::new(),
        SectionPattern::RstHeading,
    );
    let files = vec![SourceFile {
        path: String::from("vm.rst.gz"),
        data: vec![0, 1, 2, 3],
    }];
    let result = parser.parse_documents(&files);
    assert!(matches!(result, Err(Error::IoError(_))));
}

#[test]
fn test_parse_documents_invalid_utf8() {
    let parser = Parser::new(
        vec![String::from("*.rst")],
        Vec::new(),
        SectionPattern::RstHeading,
    );
    let files = vec![SourceFile {
        path: String::from("vm.rst"),
        data: vec![0xff, 0xfe, 0x00],
    }];
    let result = parser.parse_documents(&files);
    assert!(matches!(result, Err(Error::Utf8Error)));
}

#[test]
fn test_error_messages() {
    assert_eq!(
        "could not find any files to parse",
        Error::EmptyFileListError.message()
    );
    assert_eq!(
        "required file missing: `index.rst`",
        Error::MissingFileError(String::from("index.rst")).message()
    );
    assert_eq!("non-UTF-8 string", Error::Utf8Error.message());
    assert_eq!("IO error: `oops`", Error::IoError(String::from("oops")).message());
    assert_eq!(
        "cache error: `oops`",
        Error::CacheError(String::from("oops")).message()
    );
}
