use jcode_tools::integration_support::{
    count_skills_matching, ensure_preferred_tools_block, find_root_with_skills, plan_copy,
    preferred_tools_block_present, preferred_tools_path, root_candidates, skills_to_import,
    upsert_marked_block, yes_no, CopyPlan, SkillEntry,
};

const START: &str = "<!-- TEST_START -->";
const END: &str = "<!-- TEST_END -->";

const BLOCK_START: &str = "<!-- JCODE_CONTEXT_MODE_START -->";
const BLOCK_END: &str = "<!-- JCODE_CONTEXT_MODE_END -->";

fn skill(name: &str, is_dir: bool, has_skill_file: bool, installed: bool) -> SkillEntry {
    SkillEntry {
        name: name.to_string(),
        is_dir,
        has_skill_file,
        installed,
    }
}

#[test]
fn upsert_appends_when_no_marker() {
    let out = upsert_marked_block("hello", "BLOCK", START, END);
    assert_eq!(out, "hello\n\nBLOCK");
}

#[test]
fn upsert_into_empty_returns_block_only() {
    let out = upsert_marked_block("   \n  ", "BLOCK", START, END);
    assert_eq!(out, "BLOCK");
}

#[test]
fn upsert_replaces_existing_block_and_preserves_surroundings() {
    let existing = format!("before\n\n{START}\nold\n{END}\n\nafter");
    let block = format!("{START}\nnew\n{END}");
    let out = upsert_marked_block(&existing, &block, START, END);
    assert!(out.contains("before"));
    assert!(out.contains("after"));
    assert!(out.contains("new"));
    assert!(!out.contains("old"));
}

#[test]
fn marked_block_upsert_replaces_existing_context_mode_block() {
    let first = format!("before\n\n{BLOCK_START}\nold\n{BLOCK_END}\n\nafter");
    let second = format!("{BLOCK_START}\nnew\n{BLOCK_END}");

    let out = upsert_marked_block(&first, &second, BLOCK_START, BLOCK_END);

    assert!(out.contains("before"));
    assert!(out.contains("new"));
    assert!(out.contains("after"));
    assert!(!out.contains("old"));
}

#[test]
fn upsert_separates_with_one_blank_line() {
    let block = format!("{START}\nnew\n{END}");
    let existing = format!("a\n\n\n\n{START}x{END}\n\n\n  b\n");
    assert_eq!(
        upsert_marked_block(&existing, &block, START, END),
        format!("a\n\n{block}\n\nb\n")
    );
    assert_eq!(
        upsert_marked_block(&format!("{START}x{END}"), &block, START, END),
        block
    );
}

#[test]
fn upsert_with_one_marker_appends() {
    let block = format!("{START}\nnew\n{END}");
    let existing = format!("a {START} b");
    assert_eq!(
        upsert_marked_block(&existing, &block, START, END),
        format!("a {START} b\n\n{block}")
    );
}

#[test]
fn upsert_with_the_end_marker_first_appends() {
    assert_eq!(upsert_marked_block("E x S", "B", "S", "E"), "E x S\n\nB");
}

#[test]
fn a_stray_end_marker_stays_where_it_is() {
    let block = format!("{START}\nnew\n{END}");
    let existing = format!("{END} above\n\n{START}\nold\n{END}\n\nbelow {END}");
    assert_eq!(
        upsert_marked_block(&existing, &block, START, END),
        format!("{END} above\n\n{block}\n\nbelow {END}")
    );
}

#[test]
fn overlapping_markers_are_one_region() {
    let once = upsert_marked_block("", "ABC", "AB", "BC");
    assert_eq!(once, "ABC");
    assert_eq!(upsert_marked_block(&once, "ABC", "AB", "BC"), "ABC");
    assert_eq!(upsert_marked_block("x ABC y", "ABC", "AB", "BC"), "x\n\nABC\n\ny");
    assert_eq!(upsert_marked_block("M", "M", "M", "M"), "M");
    // An end marker inside the start marker does not cut it.
    assert_eq!(upsert_marked_block("x AB y", "B", "AB", "A"), "x\n\nB\n\ny");
}

#[test]
fn upsert_twice_is_upsert_once() {
    let block = format!("{START}\nnew\n{END}");
    for existing in [
        String::new(),
        "text".to_string(),
        format!("ä\n\n{START}\nold\n{END}\nß"),
        format!("{START}{END}"),
        format!("{END} only the end"),
        format!("{END} first {START} then {END} again"),
    ] {
        let once = upsert_marked_block(&existing, &block, START, END);
        assert_eq!(upsert_marked_block(&once, &block, START, END), once);
    }
}

#[test]
fn ensure_preferred_tools_block_is_idempotent() {
    let block = format!("{START}\nrouting\n{END}");
    let content = ensure_preferred_tools_block("", &block, START, END, false).expect("first write");
    // A second call without overwrite must be a no-op.
    assert!(ensure_preferred_tools_block(&content, &block, START, END, false).is_none());
    assert!(preferred_tools_block_present(Some(&content), START));
    assert!(!preferred_tools_block_present(None, START));

    // Overwrite should rewrite even if present.
    let content =
        ensure_preferred_tools_block(&content, &block, START, END, true).expect("overwrite");
    // Exactly one block, not duplicated.
    assert_eq!(content.matches(START).count(), 1);
}

#[test]
fn import_skills_copies_skill_dirs_and_is_non_destructive() {
    let found = vec![
        skill("not_a_skill", true, false, false),
        skill("alpha", true, true, false),
        skill("file", false, true, false),
    ];
    assert_eq!(skills_to_import(&found, false), vec!["alpha".to_string()]);

    let again = vec![skill("alpha", true, true, true)];
    assert!(skills_to_import(&again, false).is_empty());
    assert_eq!(skills_to_import(&again, true), vec!["alpha".to_string()]);
}

#[test]
fn imported_skills_are_sorted() {
    let found = vec![
        skill("zeta", true, true, false),
        skill("Alpha", true, true, false),
        skill("alpha", true, true, false),
    ];
    assert_eq!(skills_to_import(&found, false), vec!["Alpha", "alpha", "zeta"]);
}

#[test]
fn find_root_prefers_explicit_path() {
    let roots = root_candidates(Some("/upstream"), None, Some("/cwd"), "nonexistent-package");
    assert_eq!(
        roots,
        vec!["/upstream", "/cwd/node_modules/nonexistent-package"]
    );
    assert_eq!(
        find_root_with_skills(&roots, &vec![true, true]).as_deref(),
        Some("/upstream")
    );
    assert_eq!(
        find_root_with_skills(&roots, &vec![false, true]).as_deref(),
        Some("/cwd/node_modules/nonexistent-package")
    );
    assert_eq!(find_root_with_skills(&roots, &vec![false, false]), None);
}

#[test]
fn a_blank_variable_names_no_root() {
    assert_eq!(
        root_candidates(None, Some("  "), None, "p"),
        Vec::<String>::new()
    );
    assert_eq!(root_candidates(None, Some(" /r "), None, "p"), vec![" /r "]);
}

#[test]
fn count_skills_matching_filters_by_predicate() {
    let entries = vec![
        skill("caveman", true, true, true),
        skill("caveman-compress", true, true, true),
        skill("other", true, true, true),
        skill("caveman-draft", true, false, true),
    ];
    let count = count_skills_matching(&entries, |n: &str| n.starts_with("caveman"));
    assert_eq!(count, 2);
}

#[test]
fn copies_are_planned() {
    assert_eq!(plan_copy(false, false), CopyPlan::Create);
    assert_eq!(plan_copy(false, true), CopyPlan::Create);
    assert_eq!(plan_copy(true, false), CopyPlan::Keep);
    assert_eq!(plan_copy(true, true), CopyPlan::Replace);
}

#[test]
fn small_helpers() {
    assert_eq!(yes_no(true), "yes");
    assert_eq!(yes_no(false), "no");
    assert_eq!(preferred_tools_path("/h/.jcode"), "/h/.jcode/preferred-tools.md");
}
