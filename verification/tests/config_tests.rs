use robber::config::ProcessConfig;
use robber::rules::WordPair;

fn base_config() -> ProcessConfig {
    ProcessConfig {
        source: "/data/project_old".to_string(),
        destination: "/out".to_string(),
        create_subfolder: false,
        folder_name: None,
        use_timestamp: false,
        variants: false,
        rename: false,
        pairs: vec![WordPair { old: "old".to_string(), new: "new".to_string() }],
        filter_paths: None,
    }
}

#[test]
fn dest_dir_without_subfolder_is_destination() {
    let cfg = base_config();
    assert_eq!(cfg.dest_dir(), "/out");
}

#[test]
fn dest_dir_with_named_subfolder() {
    let mut cfg = base_config();
    cfg.create_subfolder = true;
    cfg.folder_name = Some("result".to_string());
    assert_eq!(cfg.dest_dir(), "/out/result");
}

#[test]
fn dest_dir_defaults_to_source_name() {
    let mut cfg = base_config();
    cfg.create_subfolder = true;
    assert_eq!(cfg.dest_dir(), "/out/project_old");
}

#[test]
fn dest_dir_with_timestamp_stays_under_destination() {
    let mut cfg = base_config();
    cfg.create_subfolder = true;
    cfg.use_timestamp = true;
    let d = cfg.dest_dir();
    assert!(d.starts_with("/out/"));
    let stamp = &d["/out/".len()..];
    assert_eq!(stamp.len(), 15);
    assert!(stamp.chars().enumerate().all(|(i, c)| if i == 8 { c == '_' } else { c.is_ascii_digit() }));
}

#[test]
fn effective_pairs_honours_variants_flag() {
    let mut cfg = base_config();
    let plain = cfg.effective_pairs();
    assert_eq!(plain.len(), 1);
    assert_eq!(plain[0].old, "old");
    cfg.variants = true;
    let expanded = cfg.effective_pairs();
    assert_eq!(expanded.len(), 2);
    assert_eq!(expanded[0].old, "old");
    assert_eq!(expanded[1].old, "OLD");
    assert_eq!(expanded[1].new, "NEW");
}
