use bideorai::asset_url::path_to_asset_url;
use bideorai::encoding::{append_encoded, byte_is_kept};
use bideorai::error::LibraryError;
use bideorai::fixtures::{d, f, hm, Config, FileEntry};
use bideorai::library::{resolve_title_dir, sort_by_video_url, title, titles, SeasonEntry};
use bideorai::model::VideoContent;
use bideorai::order::str_le;
use bideorai::sidecar::{decimal_string, episode_from_fields, find_long_fraction, is_sidecar_name, read_sidecar, SidecarFields};

fn segs(parts: &[&str]) -> Vec<Vec<u8>> {
    parts.iter().map(|p| p.as_bytes().to_vec()).collect()
}

fn percent_decode(s: &str) -> Vec<u8> {
    let b = s.as_bytes();
    let mut out = Vec::new();
    let mut i = 0;
    while i < b.len() {
        if b[i] == b'%' && i + 2 < b.len() {
            let h = std::str::from_utf8(&b[i + 1..i + 3]).unwrap();
            out.push(u8::from_str_radix(h, 16).unwrap());
            i += 3;
        } else {
            out.push(b[i]);
            i += 1;
        }
    }
    out
}

fn sidecar(dir: &[&str], name: &str, text: &str) -> SeasonEntry {
    SeasonEntry { dir: segs(dir), name: name.as_bytes().to_vec(), text: Some(text.to_string()) }
}

const NARUTO_ONE: &str = r#"{"title":"Enter: Naruto Uzumaki!","plot":"Some cool story","episode":1,"season":1,"source":null}"#;

#[test]
fn url_of_path_inside_root_decodes_back() {
    let root = segs(&["/", "lib"]);
    let path = segs(&["/", "lib", "Show: A B?", "caf\u{e9} 01", "x.mpd"]);
    let url = path_to_asset_url(&root, &path).unwrap();
    assert!(url.starts_with("/assets/"));
    let rest = &url["/assets".len()..];
    let decoded: Vec<Vec<u8>> = rest[1..].split('/').map(percent_decode).collect();
    assert_eq!(decoded, path[2..].to_vec());
    assert_eq!(url, "/assets/Show%3A%20A%20B%3F/caf%C3%A9%2001/x.mpd");
}

#[test]
fn url_of_raw_bytes_is_bytewise() {
    let root = segs(&["/"]);
    let path = vec![b"/".to_vec(), vec![0xff, b'a', 0x00, b'.', b'-', b'_', b'~']];
    assert_eq!(path_to_asset_url(&root, &path), Ok("/assets/%FFa%00.-%5F%7E".to_string()));
}

#[test]
fn url_of_root_itself() {
    let root = segs(&["/", "lib"]);
    assert_eq!(path_to_asset_url(&root, &root), Ok("/assets".to_string()));
}

#[test]
fn url_outside_root_fails() {
    let root = segs(&["/", "lib", "content"]);
    assert_eq!(
        path_to_asset_url(&root, &segs(&["/", "lib", "other", "a.mpd"])),
        Err(LibraryError::OutsideRoot)
    );
    assert_eq!(path_to_asset_url(&root, &segs(&["/", "lib"])), Err(LibraryError::OutsideRoot));
    assert_eq!(
        path_to_asset_url(&root, &segs(&["/", "lib", "contents", "a.mpd"])),
        Err(LibraryError::OutsideRoot)
    );
}

#[test]
fn distinct_paths_distinct_urls() {
    let root = segs(&["/", "r"]);
    let a = path_to_asset_url(&root, &segs(&["/", "r", "a b"])).unwrap();
    let b = path_to_asset_url(&root, &segs(&["/", "r", "a%20b"])).unwrap();
    let c = path_to_asset_url(&root, &segs(&["/", "r", "a", "b"])).unwrap();
    let e = path_to_asset_url(&root, &segs(&["/", "r", "a b", "c"])).unwrap();
    assert_ne!(a, b);
    assert_ne!(a, c);
    assert_ne!(a, e);
    assert_eq!(c, "/assets/a/b");
}

#[test]
fn resolve_rejects_traversal() {
    let root = segs(&["/", "srv", "content"]);
    assert_eq!(
        resolve_title_dir(&root, Some(segs(&["/", "srv", "etc"]))),
        Err(LibraryError::PathTraversal)
    );
    assert_eq!(resolve_title_dir(&root, Some(segs(&["/", "etc"]))), Err(LibraryError::PathTraversal));
    assert_eq!(resolve_title_dir(&root, None), Err(LibraryError::NotFound));
    assert_eq!(
        resolve_title_dir(&root, Some(segs(&["/", "srv", "content", "Naruto"]))),
        Ok(segs(&["/", "srv", "content", "Naruto"]))
    );
}

#[test]
fn sidecar_with_null_source() {
    let fields = read_sidecar(NARUTO_ONE).unwrap();
    let ep = episode_from_fields(
        &segs(&["/", "lib"]),
        &segs(&["/", "lib", "Naruto", "Season 01"]),
        b"Naruto - S01E01 - Enter: Naruto Uzumaki!.json",
        fields,
    )
    .unwrap();
    assert_eq!(ep.source, None);
    assert_eq!(ep.title, "Enter: Naruto Uzumaki!");
    assert_eq!(ep.description, "Some cool story");
    let mut tags = ep.metadata.clone();
    tags.sort();
    let mut expected = hm(&[("season", "1"), ("episode", "1")]);
    expected.sort();
    assert_eq!(tags, expected);
    assert_eq!(
        ep.video_url,
        "/assets/Naruto/Season%2001/Naruto%20-%20S01E01%20-%20Enter%3A%20Naruto%20Uzumaki%21.mpd"
    );
    assert_eq!(
        ep.thumbnail_url,
        "/assets/Naruto/Season%2001/Naruto%20-%20S01E01%20-%20Enter%3A%20Naruto%20Uzumaki%21-thumb.jpg"
    );
}

#[test]
fn sidecar_fields_typed() {
    let fields = read_sidecar(r#"{"title":"T","plot":7,"episode":-1,"season":12,"source":"src","x":[1]}"#).unwrap();
    assert_eq!(
        fields,
        SidecarFields {
            title: Some("T".to_string()),
            plot: None,
            episode: None,
            season: Some(12),
            source: Some("src".to_string()),
        }
    );
    assert_eq!(read_sidecar("{not json"), None);
}

#[test]
fn sidecar_numbers_in_decimal() {
    let fields = read_sidecar(r#"{"title":"T","plot":"P","episode":105,"season":0}"#).unwrap();
    let ep = episode_from_fields(&segs(&["/"]), &segs(&["/", "s"]), b"e.json", fields).unwrap();
    assert_eq!(
        ep.metadata,
        vec![("episode".to_string(), "105".to_string()), ("season".to_string(), "0".to_string())]
    );
    assert_eq!(ep.video_url, "/assets/s/e.mpd");
}

#[test]
fn sidecar_outside_root_gives_no_episode() {
    let fields = read_sidecar(r#"{"title":"T","plot":"P"}"#).unwrap();
    assert_eq!(episode_from_fields(&segs(&["/", "lib"]), &segs(&["/", "other"]), b"e.json", fields), None);
}

#[test]
fn episodes_ordered_by_video_url() {
    let dir = ["/", "lib", "Show", "Season 1"];
    let body = r#"{"title":"t","plot":"p"}"#;
    let entries = vec![
        sidecar(&dir, "Show - S01E03.json", body),
        sidecar(&dir, "Show - S01E01.json", body),
        SeasonEntry { dir: segs(&dir), name: b"poster.jpg".to_vec(), text: None },
        sidecar(&dir, "Show - S01E02.json", body),
    ];
    let t = title(&segs(&["/", "lib"]), "Show", Some(segs(&["/", "lib", "Show"])), &entries).unwrap();
    let urls: Vec<&str> = t.content.iter().map(|c| c.video_url.as_str()).collect();
    assert_eq!(
        urls,
        vec![
            "/assets/Show/Season%201/Show%20-%20S01E01.mpd",
            "/assets/Show/Season%201/Show%20-%20S01E02.mpd",
            "/assets/Show/Season%201/Show%20-%20S01E03.mpd",
        ]
    );
    assert!(t.metadata.is_empty());
}

#[test]
fn missing_plot_fails_title() {
    let dir = ["/", "lib", "Show", "Season 1"];
    let entries = vec![
        sidecar(&dir, "a.json", r#"{"title":"t","plot":"p"}"#),
        sidecar(&dir, "b.json", r#"{"title":"t"}"#),
    ];
    assert_eq!(title(&segs(&["/", "lib"]), "Show", Some(segs(&["/", "lib", "Show"])), &entries), Err(LibraryError::InvalidContent));
}

#[test]
fn unreadable_sidecar_fails_title() {
    let entries = vec![SeasonEntry { dir: segs(&["/", "lib", "S", "1"]), name: b"a.json".to_vec(), text: None }];
    assert_eq!(title(&segs(&["/", "lib"]), "S", Some(segs(&["/", "lib", "S"])), &entries), Err(LibraryError::InvalidContent));
}

#[test]
fn empty_title_directory() {
    let t = title(&segs(&["/", "lib"]), "Empty", Some(segs(&["/", "lib", "Empty"])), &Vec::new()).unwrap();
    assert!(t.content.is_empty());
    assert_eq!(t.banner_url, "assets/Empty/banner.jpg");
}

#[test]
fn empty_root_lists_nothing() {
    assert_eq!(titles(&Vec::new()), Vec::new());
}

#[test]
fn sidecar_names() {
    assert!(is_sidecar_name(b"a.json"));
    assert!(is_sidecar_name(b"..json"));
    assert!(!is_sidecar_name(b".json"));
    assert!(!is_sidecar_name(b"a.JSON"));
    assert!(!is_sidecar_name(b"a.json.bak"));
    assert!(!is_sidecar_name(b"poster.jpg"));
}

#[test]
fn kept_bytes_and_appending() {
    assert!(byte_is_kept(b'a') && byte_is_kept(b'Z') && byte_is_kept(b'0') && byte_is_kept(b'.') && byte_is_kept(b'-'));
    assert!(!byte_is_kept(b'_') && !byte_is_kept(b' ') && !byte_is_kept(b'/') && !byte_is_kept(0x80));
    let mut s = "x".to_string();
    append_encoded(&mut s, b"A b");
    assert_eq!(s, "xA%20b");
}

#[test]
fn string_order() {
    assert!(str_le("abc", "abd"));
    assert!(str_le("ab", "abc"));
    assert!(!str_le("b", "abc"));
    assert!(str_le("", ""));
}

#[test]
fn sort_keeps_every_episode() {
    let ep = |u: &str| VideoContent {
        title: String::new(),
        video_url: u.to_string(),
        thumbnail_url: String::new(),
        description: String::new(),
        source: None,
        metadata: Vec::new(),
    };
    let sorted = sort_by_video_url(vec![ep("/b"), ep("/a"), ep("/c"), ep("/a")]);
    let urls: Vec<String> = sorted.into_iter().map(|c| c.video_url).collect();
    assert_eq!(urls, vec!["/a", "/a", "/b", "/c"]);
}

#[test]
fn tags_later_pair_wins() {
    assert_eq!(
        hm(&[("a", "1"), ("b", "2"), ("a", "3")]),
        vec![("a".to_string(), "3".to_string()), ("b".to_string(), "2".to_string())]
    );
    assert!(hm(&[]).is_empty());
}

#[test]
fn default_config() {
    assert_eq!(Config::new().asset_dir, "/opt/medusa/content");
    assert_eq!(Config::default(), Config::new());
}

#[test]
fn tree_builders() {
    let t = d("root", vec![f("a", "x")]);
    assert_eq!(
        t,
        FileEntry::Directory {
            name: "root".to_string(),
            content: vec![FileEntry::File { name: "a".to_string(), content: "x".to_string() }],
        }
    );
}

#[test]
fn url_refuses_dot_dot_below_root() {
    let root = segs(&["/", "media", "content"]);
    assert_eq!(
        path_to_asset_url(&root, &segs(&["/", "media", "content", "..", "secret", "x.mpd"])),
        Err(LibraryError::OutsideRoot)
    );
    assert_eq!(
        path_to_asset_url(&root, &segs(&["/", "media", "content", ".", "x.mpd"])),
        Err(LibraryError::OutsideRoot)
    );
    assert_eq!(
        path_to_asset_url(&root, &segs(&["/", "media", "content", "", "x.mpd"])),
        Err(LibraryError::OutsideRoot)
    );
    assert_eq!(
        path_to_asset_url(&root, &segs(&["/", "media", "content", "a/b"])),
        Err(LibraryError::OutsideRoot)
    );
    assert_eq!(
        path_to_asset_url(&root, &segs(&["/", "media", "content", "...", "x..mpd"])),
        Ok("/assets/.../x..mpd".to_string())
    );
}

#[test]
fn title_resolution() {
    let root = segs(&["/", "srv", "content"]);
    let entries = vec![sidecar(&["/", "srv", "content", "N", "S"], "a.json", r#"{"title":"t","plot":"p"}"#)];
    assert_eq!(title(&root, "../etc", Some(segs(&["/", "srv", "etc"])), &entries), Err(LibraryError::PathTraversal));
    assert_eq!(title(&root, "missing", None, &entries), Err(LibraryError::NotFound));
    assert_eq!(title(&root, "N", Some(segs(&["/", "srv", "content", "N"])), &entries).unwrap().content.len(), 1);
}

#[test]
fn unknown_sidecar_members_ignored() {
    let plain = read_sidecar(NARUTO_ONE).unwrap();
    let extra = read_sidecar(
        r#"{"genre":"x","title":"Enter: Naruto Uzumaki!","rating":9,"plot":"Some cool story","episode":1,"season":1,"source":null,"cast":{"a":[1,2]}}"#,
    )
    .unwrap();
    assert_eq!(plain, extra);
    assert_eq!(read_sidecar("[1, 2]").map(|f| f.title), Some(None));
}

#[test]
fn noise_entries_change_nothing() {
    let dir = ["/", "lib", "Show", "Season 1"];
    let body = r#"{"title":"t","plot":"p","episode":2}"#;
    let clean = vec![sidecar(&dir, "b.json", body), sidecar(&dir, "a.json", body)];
    let mut noisy = clean.clone();
    for n in [".DS_Store", "a.mpd", "a-thumb.jpg", "b.JSON", "c.json.bak", ".json"] {
        noisy.push(SeasonEntry { dir: segs(&dir), name: n.as_bytes().to_vec(), text: Some("not json".to_string()) });
    }
    let lib = segs(&["/", "lib"]);
    let show = Some(segs(&["/", "lib", "Show"]));
    assert_eq!(title(&lib, "Show", show.clone(), &clean), title(&lib, "Show", show, &noisy));
}

#[test]
fn decimal_forms() {
    assert_eq!(decimal_string(0), "0");
    assert_eq!(decimal_string(10), "10");
    assert_eq!(decimal_string(u64::MAX), u64::MAX.to_string());
}

#[test]
fn overlong_fraction_is_refused() {
    let long = format!(r#"{{"title":"t","plot":"p","x":0.{}}}"#, "0".repeat(32769));
    assert_eq!(read_sidecar(&long), None);
    let dir = ["/", "lib", "S", "1"];
    let entries = vec![sidecar(&dir, "a.json", &long)];
    assert_eq!(
        title(&segs(&["/", "lib"]), "S", Some(segs(&["/", "lib", "S"])), &entries),
        Err(LibraryError::InvalidContent)
    );
    let short = format!(r#"{{"title":"t","plot":"p","x":0.{}}}"#, "0".repeat(32767));
    assert_eq!(read_sidecar(&short).unwrap().title, Some("t".to_string()));
}

#[test]
fn long_fraction_scan_bounds() {
    assert!(!find_long_fraction(format!(".{}", "1".repeat(32767)).as_bytes()));
    assert!(find_long_fraction(format!("a.{}", "1".repeat(32768)).as_bytes()));
    assert!(!find_long_fraction(format!("{}.", "1".repeat(40000)).as_bytes()));
    assert!(!find_long_fraction(b""));
}
