use jcode_tools::hooks::{
    rewrite_bash_command, Hook, PreStep, PreToolUseDecision, PreToolUseInput, RtkRewriteHook,
};
use jcode_tools::json;
use jcode_tools::json::Json;
use jcode_tools::tool::ToolContext;

fn ctx() -> ToolContext {
    ToolContext {
        session_id: "s".into(),
        message_id: "m".into(),
        tool_call_id: "c".into(),
        working_dir: None,
    }
}

fn command_input(command: &str) -> Json {
    Json::Object(vec![("command".to_string(), json::text_value(command))])
}

#[test]
fn rewrites_ls() {
    assert_eq!(rewrite_bash_command("ls"), Some("rtk ls".into()));
    assert_eq!(
        rewrite_bash_command("ls -la src"),
        Some("rtk ls -la src".into())
    );
}

#[test]
fn rewrites_cat_to_read() {
    assert_eq!(
        rewrite_bash_command("cat src/main.rs"),
        Some("rtk read src/main.rs".into())
    );
}

#[test]
fn does_not_rewrite_cat_with_flags() {
    assert_eq!(rewrite_bash_command("cat -n file"), None);
}

#[test]
fn rewrites_grep_and_find() {
    assert_eq!(
        rewrite_bash_command("grep -r pattern ."),
        Some("rtk grep -r pattern .".into())
    );
    assert_eq!(
        rewrite_bash_command("find . -name *.rs"),
        Some("rtk find . -name *.rs".into())
    );
}

#[test]
fn rewrites_readonly_git() {
    assert_eq!(
        rewrite_bash_command("git status"),
        Some("rtk git status".into())
    );
    assert_eq!(
        rewrite_bash_command("git log -n 5"),
        Some("rtk git log -n 5".into())
    );
    assert_eq!(
        rewrite_bash_command("git diff"),
        Some("rtk git diff".into())
    );
}

#[test]
fn does_not_rewrite_mutating_git() {
    assert_eq!(rewrite_bash_command("git commit -m x"), None);
    assert_eq!(rewrite_bash_command("git push"), None);
    assert_eq!(rewrite_bash_command("git checkout main"), None);
    assert_eq!(rewrite_bash_command("git reset --hard"), None);
}

#[test]
fn rejects_pipes_and_redirects() {
    assert_eq!(rewrite_bash_command("ls | head"), None);
    assert_eq!(rewrite_bash_command("cat a > b"), None);
    assert_eq!(rewrite_bash_command("grep x . && echo done"), None);
    assert_eq!(rewrite_bash_command("ls; pwd"), None);
    assert_eq!(rewrite_bash_command("echo $(date)"), None);
    assert_eq!(rewrite_bash_command("cat `which ls`"), None);
}

#[test]
fn leaves_unknown_commands() {
    assert_eq!(rewrite_bash_command("pwd"), None);
    assert_eq!(rewrite_bash_command("echo hi"), None);
    assert_eq!(rewrite_bash_command("cargo build"), None);
}

#[test]
fn does_not_double_wrap_rtk() {
    assert_eq!(rewrite_bash_command("rtk ls"), None);
    assert_eq!(rewrite_bash_command("rtk"), None);
}

#[test]
fn empty_is_none() {
    assert_eq!(rewrite_bash_command("   "), None);
}

#[test]
fn rejects_every_metacharacter() {
    for c in ["|", "&", ";", ">", "<", "`", "$(", "\n", "(", ")", "{", "}"] {
        assert_eq!(rewrite_bash_command(&format!("ls a{c}b")), None, "{c:?}");
    }
    // A lone dollar sign is no metacharacter.
    assert_eq!(
        rewrite_bash_command("ls $HOME"),
        Some("rtk ls $HOME".into())
    );
}

#[test]
fn white_space_between_words_is_normalised() {
    assert_eq!(
        rewrite_bash_command("  grep   x\t. "),
        Some("rtk grep x .".into())
    );
}

#[test]
fn quoting_that_the_words_keep_is_rewritten() {
    assert_eq!(
        rewrite_bash_command("grep \"two words\" src"),
        Some("rtk grep \"two words\" src".into())
    );
    assert_eq!(
        rewrite_bash_command("cat 'my notes.md'"),
        Some("rtk read 'my notes.md'".into())
    );
}

#[test]
fn quoting_that_the_words_lose_stays() {
    assert_eq!(rewrite_bash_command("grep \"two  spaces\" src"), None);
    assert_eq!(rewrite_bash_command("cat a\\  b"), None);
    assert_eq!(rewrite_bash_command("ls 'a\tb'"), None);
    // The quoted space at the end belongs to the name.
    assert_eq!(rewrite_bash_command("cat notes\\ "), None);
    // A flag in quotes is a flag all the same.
    assert_eq!(rewrite_bash_command("cat \"-n\" file"), None);
}

#[test]
fn git_and_cat_need_arguments() {
    assert_eq!(rewrite_bash_command("git"), None);
    assert_eq!(rewrite_bash_command("cat"), None);
    assert_eq!(rewrite_bash_command("grep"), Some("rtk grep".into()));
}

#[test]
fn a_rewrite_is_not_rewritten_again() {
    for command in ["ls -la", "cat a b", "grep x", "find .", "git show HEAD"] {
        let once = rewrite_bash_command(command).unwrap();
        assert_eq!(rewrite_bash_command(&once), None);
    }
}

#[test]
fn hook_continue_when_rtk_unavailable() {
    let hook = RtkRewriteHook::new_if_enabled(true, false).unwrap();
    let input = command_input("ls");
    let step = hook.pre(&PreToolUseInput {
        tool_name: "bash",
        input: &input,
        ctx: &ctx(),
    });
    assert!(matches!(
        step,
        PreStep::Decided(Ok(PreToolUseDecision::Continue))
    ));
}

#[test]
fn hook_rewrites_when_available() {
    let hook = RtkRewriteHook::new_if_enabled(true, true).unwrap();
    let input = command_input("ls -la");
    let step = hook.pre(&PreToolUseInput {
        tool_name: "bash",
        input: &input,
        ctx: &ctx(),
    });
    match step {
        PreStep::Decided(Ok(PreToolUseDecision::RewriteInput(v))) => {
            assert_eq!(v.get("command").unwrap().as_str(), Some("rtk ls -la"))
        }
        _ => panic!("expected rewrite"),
    }
}

#[test]
fn hook_keeps_the_other_fields() {
    let hook = RtkRewriteHook::new_if_enabled(true, true).unwrap();
    let input = Json::Object(vec![
        ("timeout".to_string(), Json::Unsigned(5)),
        ("command".to_string(), json::text_value("git log")),
        ("intent".to_string(), json::text_value("look")),
    ]);
    let step = hook.pre(&PreToolUseInput {
        tool_name: "bash",
        input: &input,
        ctx: &ctx(),
    });
    match step {
        PreStep::Decided(Ok(PreToolUseDecision::RewriteInput(v))) => assert_eq!(
            v,
            Json::Object(vec![
                ("timeout".to_string(), Json::Unsigned(5)),
                ("command".to_string(), json::text_value("rtk git log")),
                ("intent".to_string(), json::text_value("look")),
            ])
        ),
        _ => panic!("expected rewrite"),
    }
}

#[test]
fn hook_passes_inputs_without_a_command() {
    let hook = RtkRewriteHook::new_if_enabled(true, true).unwrap();
    for input in [
        Json::Null,
        Json::Object(vec![]),
        Json::Object(vec![("command".to_string(), Json::Unsigned(1))]),
        command_input("cargo build"),
    ] {
        let step = hook.pre(&PreToolUseInput {
            tool_name: "bash",
            input: &input,
            ctx: &ctx(),
        });
        assert!(matches!(
            step,
            PreStep::Decided(Ok(PreToolUseDecision::Continue))
        ));
    }
    assert_eq!(hook.name(), "native:rtk-rewrite");
    assert!(hook.matches("bash") && !hook.matches("jsbash"));
}

#[test]
fn hook_is_absent_without_the_integration() {
    assert!(RtkRewriteHook::new_if_enabled(false, true).is_none());
}
