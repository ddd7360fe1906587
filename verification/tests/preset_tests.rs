use dotlink::context::Context;
use dotlink::expand::PathError;
use dotlink::filesystem::{FileSystem, FsEntry};
use dotlink::link::{LinkOutcome, LinkRequest, Symlinkable};
use dotlink::parse::{Entry, MultipleEntry, SingleEntry};
use dotlink::preset::{config_format, ConfigFormat, Preset, Presets};
use dotlink::report::Reporter;

fn single(name: &str, to: &str, rename: Option<&str>) -> SingleEntry {
    SingleEntry {
        name: name.to_string(),
        to: to.to_string(),
        rename: rename.map(|r| r.to_string()),
    }
}

fn multiple(names: &[&str], to: &str) -> MultipleEntry {
    MultipleEntry {
        names: names.iter().map(|n| n.to_string()).collect(),
        to: to.to_string(),
    }
}

#[test]
fn single_entry_expands_with_rename() {
    let ctx = Context::new("/dotfiles".to_string()).with_home("/home/u".to_string());
    let entry = single("vimrc", "~/", Some(".vimrc"));

    let reqs = entry.expand(&ctx).unwrap();
    assert_eq!(reqs.len(), 1);
    assert_eq!(reqs[0].source, "/dotfiles/vimrc");
    assert_eq!(reqs[0].destination, "/home/u/.vimrc");
}

#[test]
fn single_entry_scenario_creates_link() {
    let mut fs = FileSystem::new();
    fs.add_dir("/dotfiles".to_string());
    fs.add_file("/dotfiles/vimrc".to_string());
    fs.add_dir("/home/u".to_string());
    let ctx = Context::new("/dotfiles".to_string()).with_home("/home/u".to_string());
    let entry = single("vimrc", "~/", Some(".vimrc"));

    let log = entry.apply(&mut fs, &ctx).unwrap();
    assert_eq!(log.len(), 1);
    assert_eq!(log[0].1, LinkOutcome::Created);
    match fs.get("/home/u/.vimrc") {
        Some(FsEntry::Symlink(target)) => assert_eq!(target, "/dotfiles/vimrc"),
        _ => panic!("expected a symlink at /home/u/.vimrc"),
    }
}

#[test]
fn single_entry_without_rename_keeps_name() {
    let ctx = Context::new("/dotfiles".to_string());
    let entry = single("gitconfig", "/etc", None);

    let reqs = entry.expand(&ctx).unwrap();
    assert_eq!(reqs.len(), 1);
    assert_eq!(reqs[0].source, "/dotfiles/gitconfig");
    assert_eq!(reqs[0].destination, "/etc/gitconfig");
}

#[test]
fn multiple_entry_expands_in_listed_order() {
    let ctx = Context::new("/src".to_string());
    let entry = multiple(&["a", "b"], "/dst");

    let reqs = entry.expand(&ctx).unwrap();
    assert_eq!(reqs.len(), 2);
    assert_eq!(reqs[0].source, "/src/a");
    assert_eq!(reqs[0].destination, "/dst/a");
    assert_eq!(reqs[1].source, "/src/b");
    assert_eq!(reqs[1].destination, "/dst/b");
}

#[test]
fn multiple_entry_scenario_conflict_then_created() {
    let mut fs = FileSystem::new();
    fs.add_dir("/src".to_string());
    fs.add_file("/src/a".to_string());
    fs.add_file("/src/b".to_string());
    fs.add_dir("/dst".to_string());
    fs.add_file("/dst/a".to_string());
    let ctx = Context::new("/src".to_string());
    let entry = multiple(&["a", "b"], "/dst");

    let log = entry.apply(&mut fs, &ctx).unwrap();
    assert_eq!(log.len(), 2);
    assert_eq!(log[0].1, LinkOutcome::DestinationConflict);
    assert_eq!(log[1].1, LinkOutcome::Created);
    assert!(matches!(fs.get("/dst/a"), Some(FsEntry::File)));
    assert!(matches!(fs.get("/dst/b"), Some(FsEntry::Symlink(_))));
}

#[test]
fn multiple_entry_expand_fails_without_home() {
    let ctx = Context::new("/src".to_string());
    let entry = multiple(&["a"], "~/cfg");

    assert_eq!(entry.expand(&ctx).unwrap_err(), PathError::HomeDirectoryUnavailable);
}

#[test]
fn entry_dispatches_to_both_shapes() {
    let ctx = Context::new("/src".to_string());
    let one = Entry::Single(single("a", "/dst", None));
    let many = Entry::Multiple(multiple(&["b", "c"], "/dst"));

    assert_eq!(one.expand(&ctx).unwrap().len(), 1);
    assert_eq!(many.expand(&ctx).unwrap().len(), 2);
}

#[test]
fn flatten_yields_one_single_per_name() {
    let entry = multiple(&["a", "b"], "/t");
    let singles = entry.flatten();
    assert_eq!(singles.len(), 2);
    assert_eq!(singles[0].name, "a");
    assert_eq!(singles[0].to, "/t");
    assert!(singles[0].rename.is_none());
    assert_eq!(singles[1].name, "b");
    assert_eq!(singles[1].to, "/t");
    assert!(singles[1].rename.is_none());
}

#[test]
fn preset_apply_reconciles_every_entry() {
    let mut fs = FileSystem::new();
    fs.add_dir("/src".to_string());
    fs.add_file("/src/a".to_string());
    fs.add_file("/src/b".to_string());
    fs.add_dir("/dst".to_string());
    let ctx = Context::new("/src".to_string());
    let preset = Preset {
        link: vec![
            Entry::Single(single("a", "/dst", None)),
            Entry::Multiple(multiple(&["b"], "/dst")),
        ],
    };

    let log = preset.apply(&mut fs, &ctx).unwrap();
    assert_eq!(log.len(), 2);
    assert_eq!(log[0].1, LinkOutcome::Created);
    assert_eq!(log[1].1, LinkOutcome::Created);
}

#[test]
fn preset_apply_aborts_before_any_mutation() {
    let mut fs = FileSystem::new();
    fs.add_dir("/src".to_string());
    fs.add_file("/src/a".to_string());
    fs.add_dir("/dst".to_string());
    let ctx = Context::new("/src".to_string());
    let preset = Preset {
        link: vec![
            Entry::Single(single("a", "/dst", None)),
            Entry::Single(single("b", "~/cfg", None)),
        ],
    };

    let err = preset.apply(&mut fs, &ctx).unwrap_err();
    assert_eq!(err, PathError::HomeDirectoryUnavailable);
    assert!(fs.get("/dst/a").is_none());
}

#[test]
fn preset_apply_honours_dry_run() {
    let mut fs = FileSystem::new();
    fs.add_dir("/src".to_string());
    fs.add_file("/src/a".to_string());
    fs.add_dir("/dst".to_string());
    let ctx = Context::new("/src".to_string()).dry_run(true);
    let preset = Preset { link: vec![Entry::Single(single("a", "/dst", None))] };

    let log = preset.apply(&mut fs, &ctx).unwrap();
    assert_eq!(log[0].1, LinkOutcome::Created);
    assert!(fs.get("/dst/a").is_none());
}

#[test]
fn presets_names_keep_insertion_order() {
    let mut presets = Presets::new();
    presets.insert("work".to_string(), Preset { link: vec![] });
    presets.insert("laptop".to_string(), Preset { link: vec![] });

    assert_eq!(presets.names(), vec!["work".to_string(), "laptop".to_string()]);
}

#[test]
fn presets_get_finds_latest_entry() {
    let mut presets = Presets::new();
    presets.insert("default".to_string(), Preset { link: vec![] });
    presets.insert(
        "default".to_string(),
        Preset { link: vec![Entry::Single(single("a", "/dst", None))] },
    );

    let preset = presets.get(&"default".to_string()).unwrap();
    assert_eq!(preset.link.len(), 1);
    assert!(presets.get(&"missing".to_string()).is_none());
}

#[test]
fn config_file_name_picks_first_known() {
    let listing = vec![
        "readme.md".to_string(),
        "dotlink.yaml".to_string(),
        "dotlink.toml".to_string(),
    ];
    assert_eq!(Presets::get_config_file_name(&listing), Some(1));
    assert_eq!(Presets::get_config_file_name(&vec!["readme.md".to_string()]), None);
}

#[test]
fn config_format_by_extension() {
    assert_eq!(config_format(&"toml".to_string()), Some(ConfigFormat::Toml));
    assert_eq!(config_format(&"yaml".to_string()), Some(ConfigFormat::Yaml));
    assert_eq!(config_format(&"yml".to_string()), Some(ConfigFormat::Yaml));
    assert_eq!(config_format(&"json".to_string()), Some(ConfigFormat::Json));
    assert_eq!(config_format(&"ini".to_string()), None);
}

#[test]
fn reporter_keeps_record_order() {
    let mut reporter = Reporter::new();
    reporter.record(
        LinkRequest { source: "/s/a".to_string(), destination: "/d/a".to_string() },
        LinkOutcome::Created,
    );
    reporter.record(
        LinkRequest { source: "/s/b".to_string(), destination: "/d/b".to_string() },
        LinkOutcome::DestinationConflict,
    );

    let log = reporter.finalize();
    assert_eq!(log.len(), 2);
    assert_eq!(log[0].0.destination, "/d/a");
    assert_eq!(log[0].1, LinkOutcome::Created);
    assert_eq!(log[1].0.destination, "/d/b");
    assert_eq!(log[1].1, LinkOutcome::DestinationConflict);
}
