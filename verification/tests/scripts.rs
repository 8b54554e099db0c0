//! Init-script planning: tokenizing, quoting, command substitution, account
//! overrides, line handling, and the declaration-order guarantee.

use loam_cli::config::{Contract, ContractSpec};
use loam_cli::init::{init_plan, invoke_line, line_invocation, split_lines, tokenize, InitInvocation};

fn toks(line: &str) -> Vec<String> {
    tokenize(line)
}

#[test]
fn tokenize_splits_on_whitespace() {
    assert_eq!(toks("a bb  ccc"), vec!["a", "bb", "ccc"]);
    assert_eq!(toks("  lead and trail  "), vec!["lead", "and", "trail"]);
    assert_eq!(toks(""), Vec::<String>::new());
    assert_eq!(toks("   \t "), Vec::<String>::new());
}

#[test]
fn tokenize_respects_quoting() {
    assert_eq!(toks("a 'b c' d"), vec!["a", "b c", "d"]);
    assert_eq!(toks("a \"b  c\" d"), vec!["a", "b  c", "d"]);
    assert_eq!(toks("--assets '[{\"Stellar\": \"x\"} ]'"), vec![
        "--assets",
        "[{\"Stellar\": \"x\"} ]"
    ]);
    // adjacent quoted and unquoted pieces form one token
    assert_eq!(toks("pre'mid'post"), vec!["premidpost"]);
    // empty quotes still yield a token
    assert_eq!(toks("a '' b"), vec!["a", "", "b"]);
}

#[test]
fn tokenize_keeps_command_substitution_whole() {
    assert_eq!(
        toks("x $(stellar contract id asset --asset native) y"),
        vec!["x", "$(stellar contract id asset --asset native)", "y"]
    );
    // nested parentheses stay inside one token
    assert_eq!(toks("$(a $(b c) d)"), vec!["$(a $(b c) d)"]);
    // a bare dollar is an ordinary character
    assert_eq!(toks("a $5 b"), vec!["a", "$5", "b"]);
}

#[test]
fn split_lines_keeps_order_and_blanks() {
    assert_eq!(split_lines("a\nb\n"), vec!["a", "b", ""]);
    assert_eq!(split_lines("one"), vec!["one"]);
    assert_eq!(split_lines("\n\n"), vec!["", "", ""]);
}

#[test]
fn account_override_token_sets_the_signer() {
    let inv = line_invocation("STELLAR_ACCOUNT=bob mint --to bob", "alice").unwrap();
    assert_eq!(inv.account, "bob");
    assert_eq!(inv.args, vec!["mint", "--to", "bob"]);

    let inv = line_invocation("mint --to alice", "alice").unwrap();
    assert_eq!(inv.account, "alice");
    assert_eq!(inv.args, vec!["mint", "--to", "alice"]);

    assert!(line_invocation("   ", "alice").is_none());
}

#[test]
fn invoke_line_renders_account_and_args() {
    let inv = InitInvocation {
        account: "bob".to_string(),
        args: vec!["mint".to_string(), "--amount".to_string(), "2000000".to_string()],
    };
    assert_eq!(
        invoke_line(&inv),
        "--source-account bob -- mint --amount 2000000"
    );
    let inv = InitInvocation { account: "me".to_string(), args: vec!["ping".to_string()] };
    assert_eq!(invoke_line(&inv), "--source-account me -- ping");
}

fn contract(name: &str, init: Option<&str>) -> Contract {
    Contract {
        name: name.to_string(),
        spec: ContractSpec {
            workspace: true,
            alias: None,
            client: true,
            init: init.map(|s| s.to_string()),
        },
    }
}

#[test]
fn init_plan_follows_declaration_order() {
    let contracts = vec![
        contract("a", Some("first --x 1\nsecond --y 2")),
        contract("quiet", None),
        contract("b", Some("third --z 3")),
    ];
    let plan = init_plan(&contracts, "alice");
    assert_eq!(plan.len(), 2);
    assert_eq!(plan[0].contract, "a");
    assert_eq!(plan[0].invocations.len(), 2);
    assert_eq!(plan[0].invocations[0].args[0], "first");
    assert_eq!(plan[0].invocations[1].args[0], "second");
    assert_eq!(plan[1].contract, "b");
    assert_eq!(plan[1].invocations[0].args[0], "third");

    // reversing the declared order reverses the plan
    let reversed = vec![
        contract("b", Some("third --z 3")),
        contract("a", Some("first --x 1\nsecond --y 2")),
    ];
    let plan = init_plan(&reversed, "alice");
    assert_eq!(plan[0].contract, "b");
    assert_eq!(plan[1].contract, "a");
}

#[test]
fn init_plan_skips_blank_lines_and_uses_default_account() {
    let contracts = vec![contract("c", Some("\n  \nonly --line here\n"))];
    let plan = init_plan(&contracts, "alice");
    assert_eq!(plan.len(), 1);
    assert_eq!(plan[0].invocations.len(), 1);
    assert_eq!(plan[0].invocations[0].account, "alice");
    assert_eq!(
        invoke_line(&plan[0].invocations[0]),
        "--source-account alice -- only --line here"
    );
}
