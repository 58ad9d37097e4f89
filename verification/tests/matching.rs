use ripgrep_all::adapters::postproc::{postproc_prefix, PostprocPrefix};
use ripgrep_all::adapters::zip::{ZipAdapter, ZipEntry};
use ripgrep_all::adapters::{get_adapters_filtered, AdaptError, AdaptInfo, AdapterEntry, AdapterMeta, FileAdapter};
use ripgrep_all::config::{CacheConfig, RgaConfig};
use ripgrep_all::error::PreprocError;
use ripgrep_all::matching::{adapter_matcher, match_one, matches_file, FastFileMatcher, FileMatcher, FileMeta};
use ripgrep_all::preproc::{buf_choose_adapter, choose_adapter, Adapter, Ret};
use ripgrep_all::text::{decimal_string, ends_with_extension, file_name};

struct Nothing;

impl FileAdapter for Nothing {
    fn adapt(&self, _ai: AdaptInfo, _detection_reason: &FileMatcher) -> Result<Vec<AdaptInfo>, AdaptError> {
        Ok(Vec::new())
    }
}

fn meta(name: &str, extensions: &[&str], mimes: Option<&[&str]>, keep: bool, disabled: bool) -> AdapterMeta {
    AdapterMeta {
        name: name.to_string(),
        version: 1,
        description: String::new(),
        recurses: true,
        fast_matchers: extensions.iter().map(|e| FastFileMatcher::FileExtension(e.to_string())).collect(),
        slow_matchers: mimes.map(|m| m.iter().map(|t| FileMatcher::MimeType(t.to_string())).collect()),
        keep_fast_matchers_if_accurate: keep,
        disabled_by_default: disabled,
    }
}

fn entry(meta: AdapterMeta) -> AdapterEntry<Nothing> {
    AdapterEntry { meta, adapter: Nothing }
}

fn named(name: &str, mimetype: Option<&str>) -> FileMeta {
    FileMeta { mimetype: mimetype.map(|m| m.to_string()), lossy_filename: name.to_string() }
}

fn config(accurate: bool, adapters: &[&str]) -> RgaConfig {
    RgaConfig {
        accurate,
        adapters: adapters.iter().map(|a| a.to_string()).collect(),
        max_archive_recursion: 4,
        cache: CacheConfig { disabled: false, max_blob_len: 2000000, compression_level: 12 },
    }
}

fn is_extension(m: &FileMatcher, ext: &str) -> bool {
    matches!(m, FileMatcher::Fast(FastFileMatcher::FileExtension(e)) if e == ext)
}

fn is_mime(m: &FileMatcher, mime: &str) -> bool {
    matches!(m, FileMatcher::MimeType(t) if t == mime)
}

#[test]
fn extensions() {
    assert!(ends_with_extension("a.zip", "zip"));
    assert!(ends_with_extension(".zip", "zip"));
    assert!(ends_with_extension("a.tar.gz", "gz"));
    assert!(ends_with_extension("a.tar.gz", "tar.gz"));
    assert!(ends_with_extension("a.", ""));
    assert!(!ends_with_extension("zip", "zip"));
    assert!(!ends_with_extension("azip", "zip"));
    assert!(!ends_with_extension("a.zip2", "zip"));
    assert!(!ends_with_extension("a.ZIP", "zip"));
    assert!(!ends_with_extension("", "zip"));
    assert!(!ends_with_extension("a", ""));
    assert!(ends_with_extension("ü.zïp", "zïp"));
}

#[test]
fn file_names() {
    assert_eq!(file_name("outer.zip"), Some("outer.zip".to_string()));
    assert_eq!(file_name("/a/b/c.txt"), Some("c.txt".to_string()));
    assert_eq!(file_name("a/b/"), Some("b".to_string()));
    assert_eq!(file_name("a/b///"), Some("b".to_string()));
    assert_eq!(file_name("a/ü.txt"), Some("ü.txt".to_string()));
    assert_eq!(file_name("..."), Some("...".to_string()));
    assert_eq!(file_name("a/."), Some("a".to_string()));
    assert_eq!(file_name("a/b/./"), Some("b".to_string()));
    assert_eq!(file_name("a/././/."), Some("a".to_string()));
    assert_eq!(file_name("./a"), Some("a".to_string()));
    assert_eq!(file_name("a/.b"), Some(".b".to_string()));
    assert_eq!(file_name("./"), None);
    assert_eq!(file_name("/."), None);
    assert_eq!(file_name("../."), None);
    for path in ["a/.", "a/b/./", "./a", "a//b", "/", "", ".", "..", "a/..", "x/...", "/a/b/c.txt/"] {
        let expected = std::path::Path::new(path).file_name().map(|n| n.to_string_lossy().to_string());
        assert_eq!(file_name(path), expected, "{}", path);
    }
    assert_eq!(file_name(""), None);
    assert_eq!(file_name("/"), None);
    assert_eq!(file_name("//"), None);
    assert_eq!(file_name("."), None);
    assert_eq!(file_name(".."), None);
    assert_eq!(file_name("a/.."), None);
    assert_eq!(file_name("a/../"), None);
}

#[test]
fn decimals() {
    assert_eq!(decimal_string(0), "0");
    assert_eq!(decimal_string(7), "7");
    assert_eq!(decimal_string(10), "10");
    assert_eq!(decimal_string(1234567890), "1234567890");
    assert_eq!(decimal_string(-1), "-1");
    assert_eq!(decimal_string(-120), "-120");
    assert_eq!(decimal_string(i32::MAX), "2147483647");
    assert_eq!(decimal_string(i32::MIN), "-2147483648");
}

#[test]
fn line_prefixes() {
    assert_eq!(postproc_prefix(b"p: ", &b"one".to_vec()), b"p: one\n".to_vec());
    assert_eq!(postproc_prefix(b"p: ", &b"one\ntwo".to_vec()), b"p: one\np: two\n".to_vec());
    assert_eq!(postproc_prefix(b"p: ", &b"one\n".to_vec()), b"p: one\np: \n".to_vec());
    assert_eq!(postproc_prefix(b"p: ", &b"".to_vec()), b"p: \n".to_vec());
    assert_eq!(postproc_prefix(b"", &b"a\n\nb".to_vec()), b"a\n\nb\n".to_vec());
    assert_eq!(postproc_prefix(b">", &b"\n\n".to_vec()), b">\n>\n>\n".to_vec());
}

#[test]
fn the_stand_in_says_of_itself() {
    let m = PostprocPrefix::new().metadata();
    assert_eq!(m.name, "postprocprefix");
    assert_eq!(m.version, 1);
    assert!(!m.recurses);
    assert!(m.fast_matchers.is_empty());
    assert!(m.slow_matchers.is_none());
    let ai = AdaptInfo {
        filepath_hint: "a.txt".to_string(),
        is_real_file: false,
        archive_recursion_depth: 2,
        inp: b"x".to_vec(),
        line_prefix: "ü: ".to_string(),
        postprocess: true,
    };
    let units = PostprocPrefix::new().adapt(ai);
    assert_eq!(units.len(), 1);
    assert_eq!(units[0].inp, "ü: x\n".as_bytes().to_vec());
    assert_eq!(units[0].filepath_hint, "a.txt");
    assert_eq!(units[0].archive_recursion_depth, 2);
    assert_eq!(units[0].line_prefix, "ü: ");
    assert!(!units[0].postprocess);
    assert!(!units[0].is_real_file);
}

#[test]
fn the_zip_adapter_says_of_itself() {
    let m = ZipAdapter::new().metadata();
    assert_eq!(m.name, "zip");
    assert_eq!(m.version, 1);
    assert!(m.recurses);
    assert_eq!(m.fast_matchers.len(), 1);
    assert!(matches!(&m.fast_matchers[0], FastFileMatcher::FileExtension(e) if e == "zip"));
    let slow = m.slow_matchers.unwrap();
    assert_eq!(slow.len(), 1);
    assert!(is_mime(&slow[0], "application/zip"));
    assert!(!m.keep_fast_matchers_if_accurate);
    assert!(!m.disabled_by_default);
}

#[test]
fn the_zip_adapter_makes_a_unit_of_each_entry() {
    let ai = AdaptInfo {
        filepath_hint: "outer.zip".to_string(),
        is_real_file: true,
        archive_recursion_depth: 5,
        inp: Vec::new(),
        line_prefix: "PREFIX:".to_string(),
        postprocess: true,
    };
    let entries = vec![
        ZipEntry { filename: "a.txt".to_string(), content: b"A".to_vec() },
        ZipEntry { filename: "dir/b.txt".to_string(), content: b"B".to_vec() },
    ];
    let reason = FileMatcher::Fast(FastFileMatcher::FileExtension("zip".to_string()));
    let units = ZipAdapter::new().adapt(ai, &reason, entries);
    assert_eq!(units.len(), 2);
    assert_eq!(units[0].filepath_hint, "a.txt");
    assert_eq!(units[0].line_prefix, "PREFIX:a.txt: ");
    assert_eq!(units[0].inp, b"A".to_vec());
    assert_eq!(units[1].filepath_hint, "dir/b.txt");
    assert_eq!(units[1].line_prefix, "PREFIX:dir/b.txt: ");
    assert_eq!(units[1].inp, b"B".to_vec());
    for u in &units {
        assert_eq!(u.archive_recursion_depth, 6);
        assert!(!u.is_real_file);
        assert!(u.postprocess);
    }
    let none = ZipAdapter::new().adapt(
        AdaptInfo {
            filepath_hint: "e.zip".to_string(),
            is_real_file: true,
            archive_recursion_depth: 0,
            inp: Vec::new(),
            line_prefix: String::new(),
            postprocess: false,
        },
        &reason,
        Vec::new(),
    );
    assert!(none.is_empty());
}

#[test]
fn one_matcher_against_a_file() {
    let ext = FileMatcher::Fast(FastFileMatcher::FileExtension("zip".to_string()));
    let mime = FileMatcher::MimeType("application/zip".to_string());
    assert!(matches_file(&ext, &named("a.zip", None)));
    assert!(!matches_file(&ext, &named("a.txt", Some("application/zip"))));
    assert!(matches_file(&mime, &named("a.txt", Some("application/zip"))));
    assert!(!matches_file(&mime, &named("a.zip", Some("text/plain"))));
    assert!(!matches_file(&mime, &named("a.zip", None)));
}

#[test]
fn the_matchers_of_one_adapter() {
    let zip = meta("zip", &["zip", "jar"], Some(&["application/zip", "application/java-archive"]), false, false);
    // fast mode: extensions only
    assert!(is_extension(&match_one(&zip, false, &named("a.jar", None)).unwrap(), "jar"));
    assert!(match_one(&zip, false, &named("a.txt", Some("application/zip"))).is_none());
    // accurate mode: the extensions do not count, the content types do
    assert!(match_one(&zip, true, &named("a.zip", Some("text/plain"))).is_none());
    assert!(is_mime(
        &match_one(&zip, true, &named("a.txt", Some("application/java-archive"))).unwrap(),
        "application/java-archive"
    ));
    // an adapter that keeps its extensions: they are tried first
    let keep = meta("zip", &["zip"], Some(&["application/zip"]), true, false);
    assert!(is_extension(&match_one(&keep, true, &named("a.zip", Some("application/zip"))).unwrap(), "zip"));
    assert!(is_mime(&match_one(&keep, true, &named("a.bin", Some("application/zip"))).unwrap(), "application/zip"));
    // an adapter without content types: its extensions count in accurate mode too
    let plain = meta("txt", &["txt"], None, false, false);
    assert!(is_extension(&match_one(&plain, true, &named("a.txt", Some("text/plain"))).unwrap(), "txt"));
    // the first matcher of a list that hits is the reason
    let twice = meta("x", &["gz", "tar.gz"], None, false, false);
    assert!(is_extension(&match_one(&twice, false, &named("a.tar.gz", None)).unwrap(), "gz"));
}

#[test]
fn the_first_adapter_in_priority_order_wins() {
    let by_content = entry(meta("first", &[], Some(&["application/zip"]), false, false));
    let by_name = entry(meta("second", &["zip"], None, false, false));
    // both take the file, one by its content and one by its name: the
    // one that stands first in the list is chosen, whichever way it matches
    let file = named("a.zip", Some("application/zip"));
    let adapters = vec![&by_content, &by_name];
    let (i, reason) = adapter_matcher(&adapters, true, &file).unwrap();
    assert_eq!(i, 0);
    assert!(is_mime(&reason, "application/zip"));
    let adapters = vec![&by_name, &by_content];
    let (i, reason) = adapter_matcher(&adapters, true, &file).unwrap();
    assert_eq!(i, 0);
    assert!(is_extension(&reason, "zip"));
    // the second adapter is chosen where the first does not match
    let adapters = vec![&by_content, &by_name];
    let (i, reason) = adapter_matcher(&adapters, true, &named("a.zip", Some("text/plain"))).unwrap();
    assert_eq!(i, 1);
    assert!(is_extension(&reason, "zip"));
    assert!(adapter_matcher(&adapters, true, &named("a.txt", Some("text/plain"))).is_none());
    let nobody: Vec<&AdapterEntry<Nothing>> = Vec::new();
    assert!(adapter_matcher(&nobody, false, &named("a.zip", None)).is_none());
}

#[test]
fn the_active_adapters() {
    let registry = vec![
        entry(meta("zip", &["zip"], None, false, false)),
        entry(meta("tar", &["tar"], None, false, false)),
        entry(meta("odd", &["odd"], None, false, true)),
        entry(meta("pdf", &["pdf"], None, false, false)),
    ];
    let names = |v: &Vec<&AdapterEntry<Nothing>>| -> Vec<String> { v.iter().map(|e| e.meta.name.clone()).collect() };
    let all = get_adapters_filtered(&registry, &Vec::new()).unwrap();
    assert_eq!(names(&all), vec!["zip", "tar", "pdf"]);
    let chosen = get_adapters_filtered(&registry, &vec!["odd".to_string(), "zip".to_string()]).unwrap();
    assert_eq!(names(&chosen), vec!["odd", "zip"]);
    match get_adapters_filtered(&registry, &vec!["zip".to_string(), "rar".to_string(), "nope".to_string()]) {
        Err(PreprocError::UnknownAdapter(name)) => assert_eq!(name, "rar"),
        _ => panic!("expected an unknown adapter"),
    }
    let empty: Vec<AdapterEntry<Nothing>> = Vec::new();
    assert!(get_adapters_filtered(&empty, &Vec::new()).unwrap().is_empty());
}

#[test]
fn the_configured_order_is_the_priority_order() {
    let registry = vec![entry(meta("a", &["x"], None, false, false)), entry(meta("b", &["x"], None, false, false))];
    let (chosen, _, active) = choose_adapter(&config(false, &[]), &registry, "f.x", &Vec::new()).unwrap().unwrap();
    assert_eq!(chosen.meta.name, "a");
    assert_eq!(active.len(), 2);
    let (chosen, _, _) = choose_adapter(&config(false, &["b", "a"]), &registry, "f.x", &Vec::new()).unwrap().unwrap();
    assert_eq!(chosen.meta.name, "b");
    let (chosen, _, active) = choose_adapter(&config(false, &["b"]), &registry, "dir/f.x", &Vec::new()).unwrap().unwrap();
    assert_eq!(chosen.meta.name, "b");
    assert_eq!(active.len(), 1);
    assert!(choose_adapter(&config(false, &["b"]), &registry, "f.y", &Vec::new()).unwrap().is_none());
    assert!(matches!(
        choose_adapter(&config(false, &["c"]), &registry, "f.x", &Vec::new()),
        Err(PreprocError::UnknownAdapter(_))
    ));
    assert!(matches!(
        choose_adapter(&config(false, &[]), &registry, "dir/", &Vec::new()),
        Ok(Some(_)) | Ok(None)
    ));
    assert!(matches!(
        choose_adapter(&config(false, &[]), &registry, "", &Vec::new()),
        Err(PreprocError::EmptyFilename)
    ));
}

#[test]
fn accurate_mode_matches_on_the_sniffed_content() {
    let registry = vec![AdapterEntry { meta: ZipAdapter::new().metadata(), adapter: Nothing }];
    let mut zip_like = b"PK\x03\x04".to_vec();
    zip_like.extend(vec![0u8; 100]);
    // by content, whatever the name
    let (chosen, reason, _) = choose_adapter(&config(true, &[]), &registry, "data.bin", &zip_like).unwrap().unwrap();
    assert_eq!(chosen.meta.name, "zip");
    assert!(is_mime(&reason, "application/zip"));
    // the name alone does not count for the zip adapter in accurate mode
    assert!(choose_adapter(&config(true, &[]), &registry, "text.zip", &b"just text".to_vec()).unwrap().is_none());
    // in fast mode the content is not looked at
    assert!(choose_adapter(&config(false, &[]), &registry, "data.bin", &zip_like).unwrap().is_none());
    let (_, reason, _) = choose_adapter(&config(false, &[]), &registry, "text.zip", &b"just text".to_vec()).unwrap().unwrap();
    assert!(is_extension(&reason, "zip"));
    // only the first 65536 bytes are looked at
    let mut late = vec![b'a'; 65536];
    late.extend(b"\x00\x00\x00");
    let text = entry_with("text", "text/plain");
    let (_, reason, _) = choose_adapter(&config(true, &[]), &text, "late.bin", &late).unwrap().unwrap();
    assert!(is_mime(&reason, "text/plain"));
    let mut early = vec![b'a'; 65535];
    early.extend(b"\x00\x00\x00");
    assert!(choose_adapter(&config(true, &[]), &text, "early.bin", &early).unwrap().is_none());
}

fn entry_with(name: &str, mime: &str) -> Vec<AdapterEntry<Nothing>> {
    vec![entry(meta(name, &[], Some(&[mime]), false, false))]
}

#[test]
fn a_file_on_disk_is_handed_on_in_accurate_mode_only() {
    let registry = vec![AdapterEntry { meta: ZipAdapter::new().metadata(), adapter: Nothing }];
    let on_disk = |postprocess: bool| AdaptInfo {
        filepath_hint: "/data/notes.txt".to_string(),
        is_real_file: true,
        archive_recursion_depth: 0,
        inp: b"abc".to_vec(),
        line_prefix: String::new(),
        postprocess,
    };
    assert!(matches!(
        buf_choose_adapter(&config(false, &[]), &registry, on_disk(false)),
        Err(PreprocError::NoAdapterFound(_))
    ));
    assert!(matches!(
        buf_choose_adapter(&config(false, &[]), &registry, on_disk(true)),
        Err(PreprocError::NoAdapterFound(_))
    ));
    assert!(matches!(buf_choose_adapter(&config(true, &[]), &registry, on_disk(false)), Ok(Ret::Passthrough(_))));
    assert!(matches!(
        buf_choose_adapter(&config(true, &[]), &registry, on_disk(true)),
        Ok(Ret::Recurse(_, Adapter::PostprocPrefix, _, _))
    ));
}

#[test]
fn a_deny_list_leaves_adapters_out_of_the_default_set() {
    let registry = vec![
        entry(meta("zip", &["zip"], None, false, false)),
        entry(meta("tar", &["tar"], None, false, false)),
        entry(meta("odd", &["odd"], None, false, true)),
        entry(meta("pdf", &["pdf"], None, false, false)),
    ];
    let names = |v: &Vec<&AdapterEntry<Nothing>>| -> Vec<String> { v.iter().map(|e| e.meta.name.clone()).collect() };
    let list = |l: &[&str]| -> Vec<String> { l.iter().map(|n| n.to_string()).collect() };
    assert_eq!(names(&get_adapters_filtered(&registry, &list(&["-tar"])).unwrap()), vec!["zip", "pdf"]);
    assert_eq!(names(&get_adapters_filtered(&registry, &list(&["-zip", "pdf"])).unwrap()), vec!["tar"]);
    assert!(get_adapters_filtered(&registry, &list(&["-pdf", "tar", "zip"])).unwrap().is_empty());
    // what is not in the default set cannot be left out
    match get_adapters_filtered(&registry, &list(&["-odd"])) {
        Err(PreprocError::CannotRemoveAdapter(name)) => assert_eq!(name, "-odd"),
        _ => panic!("expected a refusal"),
    }
    match get_adapters_filtered(&registry, &list(&["-zip", "rar", "tar"])) {
        Err(PreprocError::CannotRemoveAdapter(name)) => assert_eq!(name, "rar"),
        _ => panic!("expected a refusal"),
    }
    // nor what was left out already
    match get_adapters_filtered(&registry, &list(&["-zip", "zip"])) {
        Err(PreprocError::CannotRemoveAdapter(name)) => assert_eq!(name, "zip"),
        _ => panic!("expected a refusal"),
    }
    assert!(matches!(
        get_adapters_filtered(&registry, &list(&["-"])),
        Err(PreprocError::CannotRemoveAdapter(_))
    ));
    // only the first name makes a deny list
    match get_adapters_filtered(&registry, &list(&["zip", "-tar"])) {
        Err(PreprocError::UnknownAdapter(name)) => assert_eq!(name, "-tar"),
        _ => panic!("expected an unknown adapter"),
    }
}

#[test]
fn a_denied_adapter_is_not_chosen() {
    let registry = vec![entry(meta("a", &["x"], None, false, false)), entry(meta("b", &["x"], None, false, false))];
    let (chosen, _, active) = choose_adapter(&config(false, &["-a"]), &registry, "f.x", &Vec::new()).unwrap().unwrap();
    assert_eq!(chosen.meta.name, "b");
    assert_eq!(active.len(), 1);
    assert!(choose_adapter(&config(false, &["-a", "b"]), &registry, "f.x", &Vec::new()).unwrap().is_none());
    assert!(matches!(
        choose_adapter(&config(false, &["-c"]), &registry, "f.x", &Vec::new()),
        Err(PreprocError::CannotRemoveAdapter(_))
    ));
}
