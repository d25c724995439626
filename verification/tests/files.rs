use ade_core::files::{
    entry_action, expand_home, expand_home_dir, image_dir, image_path, lists_plugin, within_depth,
    EntryAction, MAX_WALK_DEPTH,
};

#[test]
fn tilde_at_the_start_stands_for_home() {
    assert_eq!(expand_home("~/notes/a.md", "/home/ada"), "/home/ada/notes/a.md");
    assert_eq!(expand_home("~", "/home/ada"), "/home/ada");
    assert_eq!(expand_home("~other/x", "/home/ada"), "/home/adaother/x");
    assert_eq!(expand_home("~/a~b", "/h"), "/h/a~b");
}

#[test]
fn path_without_leading_tilde_is_kept() {
    assert_eq!(expand_home("/etc/hosts", "/home/ada"), "/etc/hosts");
    assert_eq!(expand_home("a/~/b", "/home/ada"), "a/~/b");
    assert_eq!(expand_home("", "/home/ada"), "");
}

#[test]
fn expand_home_agrees_with_replacing_the_first_tilde() {
    for path in ["~", "~/x", "~~", "~é/ü", "/x", "", "x~"] {
        let expected =
            if path.starts_with('~') { path.replacen("~", "/h/ó", 1) } else { path.to_string() };
        assert_eq!(expand_home(path, "/h/ó"), expected);
    }
}

#[test]
fn tilde_slash_stands_for_the_home_directory() {
    assert_eq!(expand_home_dir("~/notes/a.md", "/home/ada"), "/home/ada/notes/a.md");
    assert_eq!(expand_home_dir("~/", "/home/ada"), "/home/ada/");
    assert_eq!(expand_home_dir("~", "/home/ada"), "~");
    assert_eq!(expand_home_dir("~other/x", "/home/ada"), "~other/x");
    assert_eq!(expand_home_dir("/etc/hosts", "/home/ada"), "/etc/hosts");
    assert_eq!(expand_home_dir("", "/home/ada"), "");
}

#[test]
fn search_goes_five_levels_deep() {
    assert_eq!(MAX_WALK_DEPTH, 5);
    assert!(within_depth(0));
    assert!(within_depth(5));
    assert!(!within_depth(6));
    assert!(!within_depth(u32::MAX));
}

#[test]
fn hidden_and_generated_entries_are_passed_over() {
    for name in [".git", ".notes.md", ".", "node_modules", "target", "dist"] {
        assert_eq!(entry_action(name, true), EntryAction::Skip);
        assert_eq!(entry_action(name, false), EntryAction::Skip);
    }
}

#[test]
fn directories_are_searched() {
    assert_eq!(entry_action("docs", true), EntryAction::Descend);
    assert_eq!(entry_action("notes.md", true), EntryAction::Descend);
    assert_eq!(entry_action("targets", true), EntryAction::Descend);
    assert_eq!(entry_action("", true), EntryAction::Descend);
}

#[test]
fn markdown_files_are_collected() {
    assert_eq!(entry_action("notes.md", false), EntryAction::Collect);
    assert_eq!(entry_action("a.b.md", false), EntryAction::Collect);
    assert_eq!(entry_action("x.md", false), EntryAction::Collect);
}

#[test]
fn other_files_are_passed_over() {
    for name in ["notes.txt", "notes.MD", "md", "amd", "notes.md.bak", "", "nodemodules.mdx"] {
        assert_eq!(entry_action(name, false), EntryAction::Skip);
    }
}

#[test]
fn pasted_images_are_kept_under_home() {
    assert_eq!(image_dir("/home/ada"), "/home/ada/.ade/images");
    assert_eq!(
        image_path("/home/ada", 1700000000123, "png"),
        "/home/ada/.ade/images/paste-1700000000123.png"
    );
    assert_eq!(image_path("/tmp", 0, "jpg"), "/tmp/.ade/images/paste-0.jpg");
    assert_eq!(
        image_path("", u128::MAX, ""),
        "/.ade/images/paste-340282366920938463463374607431768211455."
    );
}

#[test]
fn plugin_is_listed_when_its_name_occurs() {
    let list = "{\"plugins\": {\"formatter@1.0\": {}, \"linter\": {}}}";
    assert!(lists_plugin(list, "formatter"));
    assert!(lists_plugin(list, "linter\""));
    assert!(lists_plugin(list, ""));
    assert!(lists_plugin(list, list));
    assert!(!lists_plugin(list, "spellcheck"));
    assert!(!lists_plugin(list, "Linter"));
    assert!(!lists_plugin("", "x"));
    assert!(lists_plugin("", ""));
    assert!(!lists_plugin("ab", "abc"));
}

#[test]
fn listing_agrees_with_the_standard_library() {
    let hay = "aabaabaaab-ü-aab";
    for needle in ["aab", "aaab", "aaaab", "b-ü", "ü-a", "-", "ba", "bb", ""] {
        assert_eq!(lists_plugin(hay, needle), hay.contains(needle));
    }
}
