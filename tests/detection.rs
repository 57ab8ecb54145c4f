use hero_grid::catalog::{date_token, grids_from_listing, ListingEntry};
use hero_grid::digest::{digest, to_hex};
use hero_grid::manifest::{parse_grid_hashes, GridHashes};
use hero_grid::matcher::{
    detect_current_grid, grid_type, identify_grid, match_grid_hash, unknown_grid,
};

fn manifest(pairs: &[(&str, &str)]) -> GridHashes {
    let mut g = GridHashes::new();
    for (k, v) in pairs {
        g.insert(k.to_string(), v.to_string());
    }
    g
}

#[test]
fn digest_of_known_contents() {
    assert_eq!(digest(&Vec::new()), "d41d8cd98f00b204e9800998ecf8427e");
    assert_eq!(digest(&b"abc".to_vec()), "900150983cd24fb0d6963f7d28e17f72");
}

#[test]
fn digest_is_deterministic_and_separates_contents() {
    let a = b"{\"version\":3}".to_vec();
    let b = b"{\"version\":4}".to_vec();
    assert_eq!(digest(&a), digest(&a.clone()));
    assert_ne!(digest(&a), digest(&b));
    assert_eq!(digest(&a).len(), 32);
    assert!(digest(&a).chars().all(|c| c.is_ascii_digit() || ('a'..='f').contains(&c)));
}

#[test]
fn hex_writes_two_lowercase_digits_per_byte() {
    let h: String = to_hex(&vec![0x00, 0x0f, 0xa5, 0xff]).into_iter().collect();
    assert_eq!(h, "000fa5ff");
    assert!(to_hex(&Vec::new()).is_empty());
}

#[test]
fn d2pt_file_name_is_classified_and_dated() {
    let name = "dota2protracker_hero_grid_d2pt_rating_config_2024-01-01_p1_patch.json";
    assert_eq!(grid_type(name), "d2pt");
    assert_eq!(date_token(name), "2024-01-01");
}

#[test]
fn file_name_without_year_piece_is_undated() {
    assert_eq!(date_token("dota2protracker_hero_grid_most_played_config.json"), "unknown");
    assert_eq!(date_token(""), "unknown");
    assert_eq!(date_token("x2024_y"), "unknown");
    assert_eq!(date_token("2"), "unknown");
}

#[test]
fn date_is_first_year_piece_including_last_piece() {
    assert_eq!(date_token("a_2023-05-06_2024-01-01.json"), "2023-05-06");
    assert_eq!(date_token("grid_2025.json"), "2025.json");
    assert_eq!(date_token("20"), "20");
}

#[test]
fn grid_types_in_order_of_precedence() {
    assert_eq!(grid_type("x_high_winrate_y.json"), "high_winrate");
    assert_eq!(grid_type("x_most_played_y.json"), "most_played");
    assert_eq!(grid_type("d2pt_rating_high_winrate_most_played"), "d2pt");
    assert_eq!(grid_type("high_winrate_most_played"), "high_winrate");
    assert_eq!(grid_type("custom_grid.json"), "unknown");
}

#[test]
fn listing_keeps_downloadable_json_files() {
    let entries = vec![
        ListingEntry {
            name: "grid_high_winrate_config_2024-02-03_p1.json".to_string(),
            download_url: Some("https://example.org/a.json".to_string()),
        },
        ListingEntry { name: "README.md".to_string(), download_url: Some("u".to_string()) },
        ListingEntry { name: "no_url.json".to_string(), download_url: None },
        ListingEntry { name: "plain.json".to_string(), download_url: Some("v".to_string()) },
    ];
    let grids = grids_from_listing(entries);
    assert_eq!(grids.len(), 2);
    assert_eq!(grids[0].name, "grid_high_winrate_config_2024-02-03_p1.json");
    assert_eq!(grids[0].date, "2024-02-03");
    assert_eq!(grids[0].download_url, "https://example.org/a.json");
    assert_eq!(grids[1].name, "plain.json");
    assert_eq!(grids[1].date, "unknown");
    assert_eq!(grids[1].download_url, "v");
}

#[test]
fn empty_listing_gives_no_grids() {
    assert!(grids_from_listing(Vec::new()).is_empty());
}

#[test]
fn manifest_skips_line_without_comma() {
    let g = parse_grid_hashes("fileA.json,h1\nbroken line\n");
    assert_eq!(g.hashes.len(), 1);
    assert_eq!(g.hashes[0], ("fileA.json".to_string(), "h1".to_string()));
}

#[test]
fn manifest_trims_lines_and_splits_at_first_comma() {
    let g = parse_grid_hashes("  a.json,x,y  \r\n\n   \n\tb.json , h2\r\nlast.json,h3");
    assert_eq!(g.hashes.len(), 3);
    assert_eq!(g.hashes[0], ("a.json".to_string(), "x,y".to_string()));
    assert_eq!(g.hashes[1], ("b.json ".to_string(), " h2".to_string()));
    assert_eq!(g.hashes[2], ("last.json".to_string(), "h3".to_string()));
}

#[test]
fn manifest_later_line_replaces_earlier() {
    let g = parse_grid_hashes("a.json,h1\nb.json,h2\na.json,h3\n");
    assert_eq!(g.hashes.len(), 2);
    assert_eq!(g.hashes[0], ("a.json".to_string(), "h3".to_string()));
    assert_eq!(g.hashes[1], ("b.json".to_string(), "h2".to_string()));
}

#[test]
fn empty_manifest_text() {
    assert!(parse_grid_hashes("").hashes.is_empty());
    assert!(parse_grid_hashes("\n\n  \n").hashes.is_empty());
}

#[test]
fn matching_digest_is_known() {
    let d = match_grid_hash("h1".to_string(), manifest(&[("fileA.json", "h1")])).unwrap();
    assert!(d.is_known);
    assert_eq!(d.name, "fileA.json");
    assert_eq!(d.hash, "h1");
    assert_eq!(d.grid_type, "unknown");
    assert_eq!(d.date, "unknown");
}

#[test]
fn matched_name_is_classified() {
    let name = "dota2protracker_hero_grid_d2pt_rating_config_2024-01-01_p1_patch.json";
    let d = match_grid_hash("abc".to_string(), manifest(&[("other.json", "zzz"), (name, "abc")]))
        .unwrap();
    assert_eq!(d.name, name);
    assert_eq!(d.grid_type, "d2pt");
    assert_eq!(d.date, "2024-01-01");
}

#[test]
fn unmatched_digest_gives_none_and_detection_keeps_digest() {
    let g = manifest(&[("fileA.json", "h1")]);
    assert!(match_grid_hash("h2".to_string(), manifest(&[("fileA.json", "h1")])).is_none());
    let content = b"local grid".to_vec();
    let d = identify_grid(&content, g);
    assert!(!d.is_known);
    assert_eq!(d.hash, digest(&content));
    assert_eq!(d.grid_type, "unknown");
    assert_eq!(d.name, "Current Grid");
    assert_eq!(d.date, "unknown");
}

#[test]
fn shared_digest_goes_to_first_name_in_order() {
    let g = manifest(&[("b.json", "same"), ("ab.json", "same"), ("a.json", "same"), ("0.json", "x")]);
    assert_eq!(match_grid_hash("same".to_string(), g).unwrap().name, "a.json");
    let g = manifest(&[("Z.json", "same"), ("a.json", "same")]);
    assert_eq!(match_grid_hash("same".to_string(), g).unwrap().name, "Z.json");
}

#[test]
fn identify_finds_file_in_manifest() {
    let content = b"abc".to_vec();
    let g = manifest(&[("x_most_played_2023-11-11.json", "900150983cd24fb0d6963f7d28e17f72")]);
    let d = identify_grid(&content, g);
    assert!(d.is_known);
    assert_eq!(d.name, "x_most_played_2023-11-11.json");
    assert_eq!(d.grid_type, "most_played");
    assert_eq!(d.date, "2023-11-11.json");
}

#[test]
fn detection_before_matching_reports_digest() {
    let d = detect_current_grid(&Vec::new());
    assert!(!d.is_known);
    assert_eq!(d.hash, "d41d8cd98f00b204e9800998ecf8427e");
    let u = unknown_grid("h".to_string());
    assert_eq!(u.hash, "h");
    assert!(!u.is_known);
}

#[test]
fn manifest_trims_unicode_whitespace() {
    let g = parse_grid_hashes("\u{3000}a.json,h\u{00A0}\n\u{2028}\n");
    assert_eq!(g.hashes.len(), 1);
    assert_eq!(g.hashes[0], ("a.json".to_string(), "h".to_string()));
}
