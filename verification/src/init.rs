//! The init-script runner's planning half: splitting a contract's declared
//! script into lines, tokenizing each line with shell-like quoting and
//! command-substitution grouping, resolving the per-line account override,
//! and flattening the contracts' scripts into one ordered plan.

use vstd::prelude::*;
use crate::config::{Contract, ContractModel, contract_models};
use crate::text::{spec_starts_with, str_starts_with};

verus! {

/// Tokenizer mode: outside quotes, inside single quotes, inside double quotes.
#[derive(Clone, Copy, PartialEq, Eq, Structural, Debug)]
pub enum TokMode {
    Normal,
    Single,
    Double,
}

/// The tokenizer's state after consuming a prefix of the line.
pub struct TokState {
    pub mode: TokMode,
    /// Open `$(` substitution groups not yet closed by `)`.
    pub depth: nat,
    /// The previous character was an unquoted `$`.
    pub dollar: bool,
    /// A token is under construction (so empty quotes still yield a token).
    pub in_word: bool,
    pub cur: Seq<char>,
    pub toks: Seq<Seq<char>>,
}

pub open spec fn tok_init() -> TokState {
    TokState {
        mode: TokMode::Normal,
        depth: 0,
        dollar: false,
        in_word: false,
        cur: Seq::empty(),
        toks: Seq::empty(),
    }
}

/// Consume one character: quotes group without being kept, whitespace ends a
/// token, and a `$( ... )` group is kept verbatim, nested parentheses and all,
/// without being split on its inner whitespace.
pub open spec fn tok_step(st: TokState, c: char) -> TokState {
    match st.mode {
        TokMode::Single => if c == '\'' {
            TokState { mode: TokMode::Normal, ..st }
        } else {
            TokState { cur: st.cur.push(c), ..st }
        },
        TokMode::Double => if c == '"' {
            TokState { mode: TokMode::Normal, ..st }
        } else {
            TokState { cur: st.cur.push(c), ..st }
        },
        TokMode::Normal => if st.depth > 0 {
            if c == '(' {
                TokState { depth: st.depth + 1, cur: st.cur.push(c), ..st }
            } else if c == ')' {
                TokState { depth: (st.depth - 1) as nat, cur: st.cur.push(c), ..st }
            } else {
                TokState { cur: st.cur.push(c), ..st }
            }
        } else if st.dollar && c == '(' {
            TokState { depth: 1, dollar: false, cur: st.cur.push(c), ..st }
        } else if c == ' ' || c == '\t' {
            if st.in_word {
                TokState {
                    dollar: false,
                    in_word: false,
                    cur: Seq::empty(),
                    toks: st.toks.push(st.cur),
                    ..st
                }
            } else {
                TokState { dollar: false, ..st }
            }
        } else if c == '\'' {
            TokState { mode: TokMode::Single, dollar: false, in_word: true, ..st }
        } else if c == '"' {
            TokState { mode: TokMode::Double, dollar: false, in_word: true, ..st }
        } else if c == '$' {
            TokState { dollar: true, in_word: true, cur: st.cur.push(c), ..st }
        } else {
            TokState { dollar: false, in_word: true, cur: st.cur.push(c), ..st }
        },
    }
}

pub open spec fn tok_fold(st: TokState, s: Seq<char>) -> TokState
    decreases s.len(),
{
    if s.len() == 0 {
        st
    } else {
        tok_fold(tok_step(st, s[0]), s.drop_first())
    }
}

/// A token still under construction at end of line is a token.
pub open spec fn tok_finish(st: TokState) -> Seq<Seq<char>> {
    if st.in_word {
        st.toks.push(st.cur)
    } else {
        st.toks
    }
}

/// The tokens of one script line.
pub open spec fn spec_tokenize(s: Seq<char>) -> Seq<Seq<char>> {
    tok_finish(tok_fold(tok_init(), s))
}

proof fn lemma_tok_fold_snoc(st: TokState, s: Seq<char>, c: char)
    ensures
        tok_fold(st, s.push(c)) == tok_step(tok_fold(st, s), c),
    decreases s.len(),
{
    if s.len() == 0 {
        assert(s.push(c)[0] == c);
        assert(s.push(c).drop_first() =~= Seq::<char>::empty());
        assert(tok_fold(st, s.push(c)) == tok_fold(tok_step(st, c), s.push(c).drop_first()));
        assert(tok_fold(tok_step(st, c), Seq::<char>::empty()) == tok_step(st, c));
    } else {
        assert(s.push(c)[0] == s[0]);
        assert(s.push(c).drop_first() =~= s.drop_first().push(c));
        lemma_tok_fold_snoc(tok_step(st, s[0]), s.drop_first(), c);
    }
}

/// Tokenize one init-script line: whitespace separates tokens; single and
/// double quotes group text without being kept; an unquoted `$( ... )`
/// command substitution is kept as literal text, not evaluated and not split.
pub fn tokenize(s: &str) -> (r: Vec<String>)
    ensures
        r.deep_view() == spec_tokenize(s@),
{
    let n = s.unicode_len();
    let mut i: usize = 0;
    let mut mode = TokMode::Normal;
    let mut depth: usize = 0;
    let mut dollar: bool = false;
    let mut in_word: bool = false;
    let mut cur = crate::text::empty_string();
    let mut toks: Vec<String> = Vec::new();
    proof {
        assert(s@.subrange(0, 0) =~= Seq::<char>::empty());
        assert(toks.deep_view() =~= Seq::<Seq<char>>::empty());
    }
    while i < n
        invariant
            0 <= i <= n,
            n == s@.len(),
            tok_fold(tok_init(), s@.subrange(0, i as int)) == (TokState {
                mode: mode,
                depth: depth as nat,
                dollar: dollar,
                in_word: in_word,
                cur: cur@,
                toks: toks.deep_view(),
            }),
            depth <= i,
        decreases n - i,
    {
        let ghost st = tok_fold(tok_init(), s@.subrange(0, i as int));
        let c = s.get_char(i);
        proof {
            assert(s@.subrange(0, i + 1) =~= s@.subrange(0, i as int).push(s@[i as int]));
            lemma_tok_fold_snoc(tok_init(), s@.subrange(0, i as int), s@[i as int]);
        }
        match mode {
            TokMode::Single => {
                if c == '\'' {
                    mode = TokMode::Normal;
                } else {
                    push_char(&mut cur, s, i);
                }
            },
            TokMode::Double => {
                if c == '"' {
                    mode = TokMode::Normal;
                } else {
                    push_char(&mut cur, s, i);
                }
            },
            TokMode::Normal => {
                if depth > 0 {
                    if c == '(' {
                        depth = depth + 1;
                    } else if c == ')' {
                        depth = depth - 1;
                    }
                    push_char(&mut cur, s, i);
                } else if dollar && c == '(' {
                    depth = 1;
                    dollar = false;
                    push_char(&mut cur, s, i);
                } else if c == ' ' || c == '\t' {
                    if in_word {
                        dollar = false;
                        in_word = false;
                        let done = cur;
                        cur = crate::text::empty_string();
                        let ghost old_toks = toks.deep_view();
                        toks.push(done);
                        proof {
                            assert(toks.deep_view() =~= old_toks.push(st.cur));
                        }
                    } else {
                        dollar = false;
                    }
                } else if c == '\'' {
                    mode = TokMode::Single;
                    dollar = false;
                    in_word = true;
                } else if c == '"' {
                    mode = TokMode::Double;
                    dollar = false;
                    in_word = true;
                } else if c == '$' {
                    dollar = true;
                    in_word = true;
                    push_char(&mut cur, s, i);
                } else {
                    dollar = false;
                    in_word = true;
                    push_char(&mut cur, s, i);
                }
            },
        }
        i = i + 1;
    }
    proof {
        assert(s@.subrange(0, n as int) =~= s@);
    }
    if in_word {
        let ghost old_toks = toks.deep_view();
        toks.push(cur);
        proof {
            assert(toks.deep_view() =~= old_toks.push(
                tok_fold(tok_init(), s@).cur,
            ));
        }
    }
    toks
}

/// Line splitting: the state is the line under construction and the complete
/// lines so far.
pub open spec fn split_step(cur: Seq<char>, lines: Seq<Seq<char>>, c: char) -> (Seq<char>, Seq<
    Seq<char>,
>) {
    if c == '\n' {
        (Seq::empty(), lines.push(cur))
    } else {
        (cur.push(c), lines)
    }
}

pub open spec fn split_fold(cur: Seq<char>, lines: Seq<Seq<char>>, s: Seq<char>) -> (Seq<char>, Seq<
    Seq<char>,
>)
    decreases s.len(),
{
    if s.len() == 0 {
        (cur, lines)
    } else {
        let st = split_step(cur, lines, s[0]);
        split_fold(st.0, st.1, s.drop_first())
    }
}

/// A script's lines: the text split at every newline. A trailing newline
/// yields a final empty line, which tokenizes to nothing and is skipped.
pub open spec fn spec_split_lines(s: Seq<char>) -> Seq<Seq<char>> {
    let st = split_fold(Seq::empty(), Seq::empty(), s);
    st.1.push(st.0)
}

proof fn lemma_split_fold_snoc(cur: Seq<char>, lines: Seq<Seq<char>>, s: Seq<char>, c: char)
    ensures
        split_fold(cur, lines, s.push(c)) == split_step(
            split_fold(cur, lines, s).0,
            split_fold(cur, lines, s).1,
            c,
        ),
    decreases s.len(),
{
    if s.len() == 0 {
        assert(s.push(c)[0] == c);
        assert(s.push(c).drop_first() =~= Seq::<char>::empty());
        let st = split_step(cur, lines, c);
        assert(split_fold(st.0, st.1, Seq::<char>::empty()) == st);
    } else {
        assert(s.push(c)[0] == s[0]);
        assert(s.push(c).drop_first() =~= s.drop_first().push(c));
        let st = split_step(cur, lines, s[0]);
        lemma_split_fold_snoc(st.0, st.1, s.drop_first(), c);
    }
}

/// Split a script into its lines, in order.
pub fn split_lines(s: &str) -> (r: Vec<String>)
    ensures
        r.deep_view() == spec_split_lines(s@),
{
    let n = s.unicode_len();
    let mut i: usize = 0;
    let mut cur = crate::text::empty_string();
    let mut lines: Vec<String> = Vec::new();
    proof {
        assert(s@.subrange(0, 0) =~= Seq::<char>::empty());
        assert(lines.deep_view() =~= Seq::<Seq<char>>::empty());
    }
    while i < n
        invariant
            0 <= i <= n,
            n == s@.len(),
            cur@ == split_fold(Seq::empty(), Seq::empty(), s@.subrange(0, i as int)).0,
            lines.deep_view() == split_fold(Seq::empty(), Seq::empty(), s@.subrange(0, i as int)).1,
        decreases n - i,
    {
        let c = s.get_char(i);
        proof {
            assert(s@.subrange(0, i + 1) =~= s@.subrange(0, i as int).push(s@[i as int]));
            lemma_split_fold_snoc(Seq::empty(), Seq::empty(), s@.subrange(0, i as int), s@[i as int]);
        }
        if c == '\n' {
            let done = cur;
            cur = crate::text::empty_string();
            let ghost old_lines = lines.deep_view();
            lines.push(done);
            proof {
                assert(lines.deep_view() =~= old_lines.push(
                    split_fold(Seq::empty(), Seq::empty(), s@.subrange(0, i as int)).0,
                ));
            }
        } else {
            push_char(&mut cur, s, i);
        }
        i = i + 1;
    }
    proof {
        assert(s@.subrange(0, n as int) =~= s@);
    }
    let ghost old_lines = lines.deep_view();
    lines.push(cur);
    proof {
        assert(lines.deep_view() =~= old_lines.push(
            split_fold(Seq::empty(), Seq::empty(), s@).0,
        ));
    }
    lines
}

/// The token that overrides the signing account for one line.
pub open spec fn override_prefix() -> Seq<char> {
    "STELLAR_ACCOUNT="@
}

/// One planned invocation: the resolved signing account and the argument
/// tokens handed to the network tool.
pub struct InitInvocation {
    pub account: String,
    pub args: Vec<String>,
}

/// The model of a planned invocation.
pub struct InvocationModel {
    pub account: Seq<char>,
    pub args: Seq<Seq<char>>,
}

impl InitInvocation {
    pub open spec fn model(&self) -> InvocationModel {
        InvocationModel { account: self.account@, args: self.args.deep_view() }
    }
}

/// The models of a list of invocations, in order.
pub open spec fn invocation_models(s: Seq<InitInvocation>) -> Seq<InvocationModel> {
    Seq::new(s.len(), |i: int| s[i].model())
}

/// What one script line contributes: nothing for a blank line; otherwise the
/// invocation with the override account stripped from the tokens, or the
/// environment's default account when no override leads the line.
pub open spec fn spec_line_invocation(line: Seq<char>, default_account: Seq<char>) -> Option<
    InvocationModel,
> {
    let toks = spec_tokenize(line);
    if toks.len() == 0 {
        Option::None
    } else if spec_starts_with(toks[0], override_prefix()) {
        Option::Some(
            InvocationModel {
                account: toks[0].skip(override_prefix().len() as int),
                args: toks.drop_first(),
            },
        )
    } else {
        Option::Some(InvocationModel { account: default_account, args: toks })
    }
}

/// Plan one script line (account override and all); `None` for a blank line.
pub fn line_invocation(line: &str, default_account: &str) -> (r: Option<InitInvocation>)
    ensures
        r is Some <==> spec_line_invocation(line@, default_account@) is Some,
        r matches Some(inv) ==> spec_line_invocation(line@, default_account@) == Option::Some(
            inv.model(),
        ),
{
    let mut toks = tokenize(line);
    if toks.len() == 0 {
        proof {
            assert(spec_tokenize(line@).len() == 0);
        }
        return None;
    }
    let prefix = "STELLAR_ACCOUNT=";
    let ghost toks0 = toks.deep_view();
    if str_starts_with(toks[0].as_str(), prefix) {
        let head = toks.remove(0);
        let plen = prefix.unicode_len();
        let hlen = head.as_str().unicode_len();
        let account = head.as_str().substring_char(plen, hlen).to_owned();
        proof {
            assert(toks.deep_view() =~= toks0.drop_first());
            assert(account@ =~= toks0[0].skip(override_prefix().len() as int));
        }
        Some(InitInvocation { account, args: toks })
    } else {
        let account = default_account.to_owned();
        Some(InitInvocation { account, args: toks })
    }
}

/// `None` contributes no invocation; `Some` contributes one.
pub open spec fn opt_to_seq(o: Option<InvocationModel>) -> Seq<InvocationModel> {
    match o {
        Option::None => Seq::empty(),
        Option::Some(m) => seq![m],
    }
}

/// The invocations of a list of lines, in line order, blank lines skipped.
pub open spec fn spec_lines_invocations(lines: Seq<Seq<char>>, default_account: Seq<char>) -> Seq<
    InvocationModel,
>
    decreases lines.len(),
{
    if lines.len() == 0 {
        Seq::empty()
    } else {
        spec_lines_invocations(lines.drop_last(), default_account) + opt_to_seq(
            spec_line_invocation(lines.last(), default_account),
        )
    }
}

/// The invocations of one whole script.
pub open spec fn spec_script_invocations(script: Seq<char>, default_account: Seq<char>) -> Seq<
    InvocationModel,
> {
    spec_lines_invocations(spec_split_lines(script), default_account)
}

/// Plan one contract's whole init script: its lines in order, blank lines
/// skipped, each with its resolved signing account.
pub fn script_invocations(script: &str, default_account: &str) -> (r: Vec<InitInvocation>)
    ensures
        invocation_models(r@) == spec_script_invocations(script@, default_account@),
{
    let lines = split_lines(script);
    let n = lines.len();
    let mut out: Vec<InitInvocation> = Vec::new();
    let mut i: usize = 0;
    proof {
        assert(lines.deep_view().subrange(0, 0) =~= Seq::<Seq<char>>::empty());
        assert(invocation_models(out@) =~= Seq::<InvocationModel>::empty());
    }
    while i < n
        invariant
            0 <= i <= n,
            n == lines@.len(),
            lines.deep_view() == spec_split_lines(script@),
            invocation_models(out@) == spec_lines_invocations(
                lines.deep_view().subrange(0, i as int),
                default_account@,
            ),
        decreases n - i,
    {
        let ghost pre = lines.deep_view().subrange(0, i as int);
        let ghost post = lines.deep_view().subrange(0, i + 1);
        proof {
            assert(post.drop_last() =~= pre);
            assert(post.last() == lines.deep_view()[i as int]);
        }
        match line_invocation(lines[i].as_str(), default_account) {
            Option::Some(inv) => {
                let ghost old_models = invocation_models(out@);
                out.push(inv);
                proof {
                    assert(invocation_models(out@) =~= old_models.push(
                        spec_line_invocation(
                            lines.deep_view()[i as int],
                            default_account@,
                        )->Some_0,
                    ));
                    assert(old_models.push(
                        spec_line_invocation(lines.deep_view()[i as int], default_account@)->Some_0,
                    ) =~= old_models + opt_to_seq(
                        spec_line_invocation(lines.deep_view()[i as int], default_account@),
                    ));
                }
            },
            Option::None => {
                proof {
                    assert(invocation_models(out@) + opt_to_seq(
                        spec_line_invocation(lines.deep_view()[i as int], default_account@),
                    ) =~= invocation_models(out@));
                }
            },
        }
        i = i + 1;
    }
    proof {
        assert(lines.deep_view().subrange(0, n as int) =~= lines.deep_view());
    }
    out
}

/// One contract's planned initialization: the contract's name and its
/// invocations, in script order.
pub struct ContractInit {
    pub contract: String,
    pub invocations: Vec<InitInvocation>,
}

/// The model of one contract's planned initialization.
pub struct ContractInitModel {
    pub contract: Seq<char>,
    pub invocations: Seq<InvocationModel>,
}

impl ContractInit {
    pub open spec fn model(&self) -> ContractInitModel {
        ContractInitModel {
            contract: self.contract@,
            invocations: invocation_models(self.invocations@),
        }
    }
}

/// The models of a plan, in order.
pub open spec fn plan_models(s: Seq<ContractInit>) -> Seq<ContractInitModel> {
    Seq::new(s.len(), |i: int| s[i].model())
}

/// The initialization plan of a contract table: one entry per contract with a
/// declared init script, in the exact order the contracts are declared.
pub open spec fn spec_init_plan(contracts: Seq<ContractModel>, default_account: Seq<char>) -> Seq<
    ContractInitModel,
>
    decreases contracts.len(),
{
    if contracts.len() == 0 {
        Seq::empty()
    } else {
        let rest = spec_init_plan(contracts.drop_last(), default_account);
        match contracts.last().init {
            Option::None => rest,
            Option::Some(script) => rest.push(
                ContractInitModel {
                    contract: contracts.last().name,
                    invocations: spec_script_invocations(script, default_account),
                },
            ),
        }
    }
}

/// Plan initialization for a whole pass: contracts in declaration order, each
/// contributing its script's invocations; contracts without a script are
/// skipped.
pub fn init_plan(contracts: &Vec<Contract>, default_account: &str) -> (r: Vec<ContractInit>)
    ensures
        plan_models(r@) == spec_init_plan(contract_models(contracts@), default_account@),
{
    let n = contracts.len();
    let mut out: Vec<ContractInit> = Vec::new();
    let mut i: usize = 0;
    proof {
        assert(contract_models(contracts@).subrange(0, 0) =~= Seq::<ContractModel>::empty());
        assert(plan_models(out@) =~= Seq::<ContractInitModel>::empty());
    }
    while i < n
        invariant
            0 <= i <= n,
            n == contracts@.len(),
            plan_models(out@) == spec_init_plan(
                contract_models(contracts@).subrange(0, i as int),
                default_account@,
            ),
        decreases n - i,
    {
        let ghost ms = contract_models(contracts@);
        proof {
            assert(ms.subrange(0, i + 1).drop_last() =~= ms.subrange(0, i as int));
            assert(ms.subrange(0, i + 1).last() == ms[i as int]);
        }
        let c = &contracts[i];
        match &c.spec.init {
            Option::Some(script) => {
                let invocations = script_invocations(script.as_str(), default_account);
                let entry = ContractInit { contract: c.name.clone(), invocations };
                let ghost old_models = plan_models(out@);
                out.push(entry);
                proof {
                    assert(plan_models(out@) =~= old_models.push(
                        ContractInitModel {
                            contract: ms[i as int].name,
                            invocations: spec_script_invocations(
                                ms[i as int].init->Some_0,
                                default_account@,
                            ),
                        },
                    ));
                }
            },
            Option::None => {
            },
        }
        i = i + 1;
    }
    proof {
        assert(contract_models(contracts@).subrange(0, n as int) =~= contract_models(contracts@));
    }
    out
}

/// How many of these contracts declare an init script.
pub open spec fn count_with_init(s: Seq<ContractModel>) -> int
    decreases s.len(),
{
    if s.len() == 0 {
        0
    } else {
        count_with_init(s.drop_last()) + if s.last().init is Some {
            1int
        } else {
            0int
        }
    }
}

proof fn lemma_count_nonneg(s: Seq<ContractModel>)
    ensures
        0 <= count_with_init(s) <= s.len(),
    decreases s.len(),
{
    if s.len() > 0 {
        lemma_count_nonneg(s.drop_last());
    }
}

proof fn lemma_plan_len(s: Seq<ContractModel>, d: Seq<char>)
    ensures
        spec_init_plan(s, d).len() == count_with_init(s),
    decreases s.len(),
{
    if s.len() > 0 {
        lemma_plan_len(s.drop_last(), d);
    }
}

proof fn lemma_count_step(s: Seq<ContractModel>, k: int)
    requires
        0 <= k < s.len(),
    ensures
        count_with_init(s.subrange(0, k + 1)) == count_with_init(s.subrange(0, k)) + if s[k].init
            is Some {
            1int
        } else {
            0int
        },
{
    assert(s.subrange(0, k + 1).drop_last() =~= s.subrange(0, k));
    assert(s.subrange(0, k + 1).last() == s[k]);
}

proof fn lemma_count_monotone(s: Seq<ContractModel>, i: int, j: int)
    requires
        0 <= i <= j <= s.len(),
    ensures
        count_with_init(s.subrange(0, i)) <= count_with_init(s.subrange(0, j)),
    decreases j - i,
{
    if i < j {
        lemma_count_step(s, j - 1);
        lemma_count_monotone(s, i, j - 1);
    }
}

/// The plan entry of contract `k` (which declares an init script) stands at
/// position `count_with_init(s.subrange(0, k))` of the plan, under the
/// contract's own name and with exactly its script's invocations.
proof fn lemma_plan_at(s: Seq<ContractModel>, d: Seq<char>, k: int)
    requires
        0 <= k < s.len(),
        s[k].init is Some,
    ensures
        0 <= count_with_init(s.subrange(0, k)) < spec_init_plan(s, d).len(),
        spec_init_plan(s, d)[count_with_init(s.subrange(0, k))].contract == s[k].name,
        spec_init_plan(s, d)[count_with_init(s.subrange(0, k))].invocations
            == spec_script_invocations(s[k].init->Some_0, d),
    decreases s.len(),
{
    lemma_count_nonneg(s.subrange(0, k));
    if k == s.len() - 1 {
        assert(s.drop_last() =~= s.subrange(0, k));
        lemma_plan_len(s.drop_last(), d);
        assert(s.last() == s[k]);
    } else {
        lemma_plan_at(s.drop_last(), d, k);
        assert(s.drop_last().subrange(0, k) =~= s.subrange(0, k));
        assert(s.drop_last()[k] == s[k]);
    }
}

/// Init ordering law: of two contracts that both declare init scripts, the
/// one declared earlier in the contract table has its plan entry strictly
/// earlier, whatever else the table holds; so declaration order alone decides
/// initialization order.
pub proof fn lemma_init_plan_order(s: Seq<ContractModel>, d: Seq<char>, i: int, j: int)
    requires
        0 <= i < j < s.len(),
        s[i].init is Some,
        s[j].init is Some,
    ensures
        ({
            let plan = spec_init_plan(s, d);
            let pi = count_with_init(s.subrange(0, i));
            let pj = count_with_init(s.subrange(0, j));
            0 <= pi < pj < plan.len() && plan[pi].contract == s[i].name && plan[pj].contract
                == s[j].name
        }),
{
    lemma_plan_at(s, d, i);
    lemma_plan_at(s, d, j);
    lemma_count_step(s, i);
    lemma_count_monotone(s, i + 1, j);
}

/// The argument tokens joined by single spaces.
pub open spec fn spec_join_spaced(args: Seq<Seq<char>>) -> Seq<char>
    decreases args.len(),
{
    if args.len() == 0 {
        Seq::empty()
    } else if args.len() == 1 {
        args[0]
    } else {
        spec_join_spaced(args.drop_last()) + " "@ + args.last()
    }
}

/// The text of one invocation as handed to the network tool: the signing
/// account, the argument separator, and the argument tokens.
pub open spec fn spec_invoke_line(account: Seq<char>, args: Seq<Seq<char>>) -> Seq<char> {
    "--source-account "@ + account + " -- "@ + spec_join_spaced(args)
}

/// Render one invocation: `--source-account <account> -- <args...>`.
pub fn invoke_line(inv: &InitInvocation) -> (r: String)
    ensures
        r@ == spec_invoke_line(inv.account@, inv.args.deep_view()),
{
    let mut s = "--source-account ".to_owned();
    s.append(inv.account.as_str());
    s.append(" -- ");
    let ghost head = s@;
    let n = inv.args.len();
    let mut i: usize = 0;
    proof {
        assert(inv.args.deep_view().subrange(0, 0) =~= Seq::<Seq<char>>::empty());
    }
    while i < n
        invariant
            0 <= i <= n,
            n == inv.args@.len(),
            s@ == head + spec_join_spaced(inv.args.deep_view().subrange(0, i as int)),
            head == "--source-account "@ + inv.account@ + " -- "@,
        decreases n - i,
    {
        let ghost pre = inv.args.deep_view().subrange(0, i as int);
        let ghost post = inv.args.deep_view().subrange(0, i + 1);
        proof {
            assert(post.drop_last() =~= pre);
            assert(post.last() == inv.args.deep_view()[i as int]);
        }
        if i > 0 {
            s.append(" ");
        } else {
            proof {
                assert(spec_join_spaced(pre) =~= Seq::<char>::empty());
            }
        }
        s.append(inv.args[i].as_str());
        proof {
            if i == 0 {
                assert(post.len() == 1);
                assert(spec_join_spaced(post) == post[0]);
                assert(s@ =~= head + spec_join_spaced(post));
            } else {
                assert(spec_join_spaced(post) == spec_join_spaced(pre) + " "@ + post.last());
                assert(s@ =~= head + spec_join_spaced(post));
            }
        }
        i = i + 1;
    }
    proof {
        assert(inv.args.deep_view().subrange(0, n as int) =~= inv.args.deep_view());
    }
    s
}

/// Append the character at position `i` of `s` to `out`.
fn push_char(out: &mut String, s: &str, i: usize)
    requires
        i < s@.len(),
        s@.len() <= usize::MAX,
    ensures
        final(out)@ == old(out)@.push(s@[i as int]),
{
    let piece = s.substring_char(i, i + 1);
    out.append(piece);
    proof {
        assert(old(out)@ + s@.subrange(i as int, i + 1) =~= old(out)@.push(s@[i as int]));
    }
}

} // verus!
