use alterbot::awty::{
    awty_embed_description, distinct_ids, format_mod_statuses, get_metafile_urls, index_url,
    is_refresh_author, keep_resolved, metafile_paths_of, modrinth_id, parse_refresh_id, refresh_custom_id, status_block,
    update_status_title, IndexFile, IndexToml, ModStatus, ModToml, ModUpdate, ModpackReport,
    ModrinthUpdate,
};

fn results(entries: &[(&str, bool)]) -> Vec<(String, bool)> {
    entries.iter().map(|(n, b)| (n.to_string(), *b)).collect()
}

#[test]
fn listing_is_sorted_by_byte_order() {
    let r = results(&[("zeta", true), ("alpha", false), ("Mid", true)]);
    assert_eq!(
        format_mod_statuses(&r, false),
        "Mid - ✅\nalpha - ❌\nzeta - ✅\n\ntotal: 2/3\n"
    );
}

#[test]
fn listing_with_percentage_rounds_down() {
    let r = results(&[("b", true), ("a", false), ("c", true)]);
    assert_eq!(
        format_mod_statuses(&r, true),
        "a - ❌\nb - ✅\nc - ✅\n\ntotal: 2/3 (66%)\n"
    );
}

#[test]
fn listing_of_nothing_is_empty() {
    assert_eq!(format_mod_statuses(&Vec::new(), true), "");
}

#[test]
fn listing_hides_lines_over_budget() {
    // each line: 50 name bytes + " - " + 3-byte mark + newline = 57 bytes
    let mut r = Vec::new();
    for i in 0..100 {
        r.push((format!("{:03}{}", i, "x".repeat(47)), true));
    }
    let mut expected = String::new();
    for i in 0..68 {
        expected.push_str(&format!("{:03}{} - ✅\n", i, "x".repeat(47)));
    }
    assert!(expected.len() <= 3900);
    expected.push_str("\n... and 32 more mods\n");
    expected.push_str("\ntotal: 100/100\n");
    let got = format_mod_statuses(&r, false);
    assert_eq!(got, expected);
}

#[test]
fn embed_uses_display_names_and_report_totals() {
    let report = ModpackReport {
        mods: vec![
            ModStatus { id: "zz".to_string(), name: Some("Sodium".to_string()), supports_target_version: true },
            ModStatus { id: "aa".to_string(), name: None, supports_target_version: false },
        ],
        total_mods: 2,
        supported_mods_count: 1,
        target_minecraft_version: "1.21".to_string(),
    };
    assert_eq!(
        awty_embed_description(&report, true),
        "```text\nSodium - ✅\naa - ❌\n\ntotal: 1/2 (50%)\n\n```"
    );
    assert_eq!(update_status_title("1.21"), "update status for 1.21");
    assert_eq!(status_block("x"), "```text\nx\n```");
}

#[test]
fn refresh_id_round_trip() {
    let id = refresh_custom_id(1234, true, "1.21.1", "https://example.com/pack.toml");
    assert_eq!(id, "rf_awty|1234|1|1.21.1|https://example.com/pack.toml");
    let req = parse_refresh_id(&id).expect("a refresh id");
    assert_eq!(req.author_id, "1234");
    assert!(req.add_percentage);
    assert_eq!(req.version, "1.21.1");
    assert_eq!(req.url, "https://example.com/pack.toml");
    assert!(is_refresh_author(1234, &req));
    assert!(!is_refresh_author(123, &req));
}

#[test]
fn refresh_id_without_percentage() {
    let id = refresh_custom_id(5, false, "1.20", "u");
    let req = parse_refresh_id(&id).unwrap();
    assert!(!req.add_percentage);
}

#[test]
fn other_ids_are_not_refresh_ids() {
    assert!(parse_refresh_id("vote_Yes_x").is_none());
    assert!(parse_refresh_id("rf_awty|1|0|v").is_none());
    assert!(parse_refresh_id("").is_none());
}

#[test]
fn metafile_urls_resolve_against_index() {
    let index = IndexToml {
        files: vec![
            IndexFile { file: "mods/a.pw.toml".to_string(), metafile: true },
            IndexFile { file: "config/x.cfg".to_string(), metafile: false },
            IndexFile { file: "mods/b.pw.toml".to_string(), metafile: true },
        ],
    };
    let urls = get_metafile_urls("https://example.com/pack/index.toml", &index);
    assert_eq!(
        urls,
        vec![
            "https://example.com/pack/mods/a.pw.toml".to_string(),
            "https://example.com/pack/mods/b.pw.toml".to_string()
        ]
    );
}

#[test]
fn index_url_joins_or_fails() {
    assert_eq!(
        index_url("https://example.com/pack/pack.toml", "index.toml"),
        Some("https://example.com/pack/index.toml".to_string())
    );
    assert_eq!(index_url("not a url", "index.toml"), None);
}

#[test]
fn modrinth_ids_of_metafiles() {
    let m = ModToml {
        update: Some(ModUpdate { modrinth: Some(ModrinthUpdate { mod_id: "AANobbMI".to_string() }) }),
    };
    assert_eq!(modrinth_id(&m), Some("AANobbMI".to_string()));
    assert_eq!(modrinth_id(&ModToml { update: None }), None);
    assert_eq!(modrinth_id(&ModToml { update: Some(ModUpdate { modrinth: None }) }), None);
}

#[test]
fn ids_are_kept_once() {
    let ids = vec!["a".to_string(), "b".to_string(), "a".to_string(), "c".to_string(), "b".to_string()];
    assert_eq!(distinct_ids(&ids), vec!["a".to_string(), "b".to_string(), "c".to_string()]);
}

#[test]
fn listing_ignores_pair_order() {
    let a = results(&[("zeta", true), ("alpha", false), ("Mid", true), ("beta", true)]);
    let b = results(&[("beta", true), ("Mid", true), ("zeta", true), ("alpha", false)]);
    assert_eq!(format_mod_statuses(&a, true), format_mod_statuses(&b, true));
}

#[test]
fn failed_joins_are_skipped() {
    let joins = vec![Some("https://a/x".to_string()), None, Some("https://a/y".to_string()), None];
    assert_eq!(keep_resolved(&joins), vec!["https://a/x".to_string(), "https://a/y".to_string()]);
    assert!(keep_resolved(&Vec::new()).is_empty());
}

#[test]
fn metafile_paths_in_index_order() {
    let index = IndexToml {
        files: vec![
            IndexFile { file: "mods/a.pw.toml".to_string(), metafile: true },
            IndexFile { file: "pack.png".to_string(), metafile: false },
            IndexFile { file: "mods/b.pw.toml".to_string(), metafile: true },
        ],
    };
    assert_eq!(metafile_paths_of(&index), vec!["mods/a.pw.toml".to_string(), "mods/b.pw.toml".to_string()]);
}
