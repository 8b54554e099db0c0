//! The typed configuration model: a named environment with its network
//! descriptor, signing accounts, and ordered contract deployment table, plus
//! the validation that every configured contract resolves to a workspace
//! package or a declared alias.

use vstd::prelude::*;
use crate::deploy::EnvClass;
use crate::text::str_eq;
use crate::toml::{AssignModel, PairModel, TomlAssign, TomlPair, TomlValue, ValueModel, doc_models, lemma_seq_pair_models, lemma_seq_value_models, parse_document, seq_pair_models, seq_value_models, spec_parse_document};

verus! {

/// A funding/signing account declared by the environment.
#[derive(Debug)]
pub struct Account {
    pub name: String,
}

/// Where the environment's network lives and how to address it.
#[derive(Debug)]
pub struct NetworkDescriptor {
    pub rpc_url: String,
    pub network_passphrase: String,
}

/// One contract's deployment spec: whether it is built from the local
/// workspace or taken from a published alias, whether a typed client is
/// generated and imported, and its optional init script.
#[derive(Debug)]
pub struct ContractSpec {
    pub workspace: bool,
    pub alias: Option<String>,
    pub client: bool,
    pub init: Option<String>,
}

/// A contract as declared in the environment's contract table: its name and
/// its deployment spec. Declaration order is meaningful and preserved.
#[derive(Debug)]
pub struct Contract {
    pub name: String,
    pub spec: ContractSpec,
}

/// The model of a declared contract.
pub struct ContractModel {
    pub name: Seq<char>,
    pub workspace: bool,
    pub alias: Option<Seq<char>>,
    pub client: bool,
    pub init: Option<Seq<char>>,
}

impl Contract {
    pub open spec fn model(&self) -> ContractModel {
        ContractModel {
            name: self.name@,
            workspace: self.spec.workspace,
            alias: match self.spec.alias {
                Option::None => Option::None,
                Option::Some(a) => Option::Some(a@),
            },
            client: self.spec.client,
            init: match self.spec.init {
                Option::None => Option::None,
                Option::Some(s) => Option::Some(s@),
            },
        }
    }
}

/// The models of a declared contract table, in declaration order.
pub open spec fn contract_models(s: Seq<Contract>) -> Seq<ContractModel> {
    Seq::new(s.len(), |i: int| s[i].model())
}

/// A named deployment target: network, accounts, and contract table.
#[derive(Debug)]
pub struct Environment {
    pub name: String,
    pub network: NetworkDescriptor,
    pub accounts: Vec<Account>,
    pub contracts: Vec<Contract>,
}

/// A configuration diagnostic, reported before any build or deploy work.
#[derive(Debug)]
pub enum ConfigError {
    /// A configured contract name with no matching workspace package and no
    /// declared alias; carries the bad key.
    UnknownContract { contract: String },
    /// Two accounts share a name; carries the duplicated name.
    DuplicateAccount { account: String },
    /// The environment description itself could not be read; carries a
    /// position near the offending text.
    Malformed { position: usize },
    /// No environment of the requested name is declared.
    NoSuchEnvironment { name: String },
}

/// A contract resolves if it is a workspace package of the active workspace,
/// or it declares a published alias.
pub open spec fn spec_resolves(c: ContractModel, packages: Seq<Seq<char>>) -> bool {
    (c.workspace && packages.contains(c.name)) || c.alias is Some
}

/// The first configured contract that resolves to nothing, if any.
pub open spec fn spec_first_unknown(
    contracts: Seq<ContractModel>,
    packages: Seq<Seq<char>>,
) -> Option<int> {
    if exists|i: int| 0 <= i < contracts.len() && !spec_resolves(contracts[i], packages) {
        Option::Some(
            choose|i: int|
                0 <= i < contracts.len() && !spec_resolves(contracts[i], packages) && forall|j: int|
                    0 <= j < i ==> spec_resolves(contracts[j], packages),
        )
    } else {
        Option::None
    }
}

/// Does some workspace package carry this name?
pub fn contains_name(packages: &Vec<String>, name: &str) -> (r: bool)
    ensures
        r <==> packages.deep_view().contains(name@),
{
    let n = packages.len();
    let mut i: usize = 0;
    while i < n
        invariant
            0 <= i <= n,
            n == packages@.len(),
            forall|j: int| 0 <= j < i ==> packages.deep_view()[j] != name@,
        decreases n - i,
    {
        if str_eq(packages[i].as_str(), name) {
            proof {
                assert(packages.deep_view()[i as int] == name@);
            }
            return true;
        }
        i = i + 1;
    }
    false
}

/// Check every configured contract against the workspace and the declared
/// aliases, in declaration order: the diagnostic names the first contract
/// that resolves to nothing, before any compiler invocation could happen.
pub fn validate_contracts(contracts: &Vec<Contract>, packages: &Vec<String>) -> (r: Result<
    (),
    ConfigError,
>)
    ensures
        r is Ok <==> spec_first_unknown(
            contract_models(contracts@),
            packages.deep_view(),
        ) is None,
        r matches Err(e) ==> e matches ConfigError::UnknownContract { contract: c }
            && (spec_first_unknown(contract_models(contracts@), packages.deep_view())
            matches Some(i) && 0 <= i < contracts@.len() && c@ == contracts@[i].name@),
{
    let n = contracts.len();
    let mut i: usize = 0;
    while i < n
        invariant
            0 <= i <= n,
            n == contracts@.len(),
            forall|j: int|
                0 <= j < i ==> spec_resolves(
                    contract_models(contracts@)[j],
                    packages.deep_view(),
                ),
        decreases n - i,
    {
        let c = &contracts[i];
        let resolves = if c.spec.workspace {
            contains_name(packages, c.name.as_str())
        } else {
            false
        };
        let resolves = resolves || c.spec.alias.is_some();
        if !resolves {
            proof {
                let m = contract_models(contracts@);
                let p = packages.deep_view();
                assert(!spec_resolves(m[i as int], p));
                let w = choose|w: int|
                    0 <= w < m.len() && !spec_resolves(m[w], p) && forall|j: int|
                        0 <= j < w ==> spec_resolves(m[j], p);
                assert(spec_first_unknown(m, p) == Option::Some(w));
                if w != i as int {
                    assert(false);
                }
            }
            return Err(ConfigError::UnknownContract { contract: c.name.clone() });
        }
        i = i + 1;
    }
    proof {
        assert(spec_first_unknown(contract_models(contracts@), packages.deep_view()) is None);
    }
    Ok(())
}

/// The environment description's file name, fixed relative to the workspace
/// root and itself a watched path.
pub fn config_file_name() -> (r: String)
    ensures
        r@ == "environments.toml"@,
{
    "environments.toml".to_owned()
}

/// The update-policy class of an environment: `production` is immutable,
/// every other environment is mutable.
pub open spec fn spec_env_class(name: Seq<char>) -> EnvClass {
    if name == "production"@ {
        EnvClass::Immutable
    } else {
        EnvClass::Mutable
    }
}

/// Classify an environment by its name.
pub fn classify_environment(name: &str) -> (r: EnvClass)
    ensures
        r == spec_env_class(name@),
{
    if str_eq(name, "production") {
        EnvClass::Immutable
    } else {
        EnvClass::Mutable
    }
}

/// Does any assignment of the document belong to this environment?
pub open spec fn spec_env_mentioned(doc: Seq<AssignModel>, name: Seq<char>) -> bool {
    exists|k: int|
        0 <= k < doc.len() && (#[trigger] doc[k]).path.len() > 0
            && doc[k].path[0] == name
}

/// The names of a list of accounts, in order.
pub open spec fn account_names(s: Seq<Account>) -> Seq<Seq<char>> {
    Seq::new(s.len(), |i: int| s[i].name@)
}

/// The names of the contract table, in order.
pub open spec fn contract_names(s: Seq<Contract>) -> Seq<Seq<char>> {
    Seq::new(s.len(), |i: int| s[i].name@)
}

/// The account names one inline table contributes: the text values of its
/// `name` keys, in order.
pub open spec fn table_account_names(pairs: Seq<PairModel>) -> Seq<Seq<char>>
    decreases pairs.len(),
{
    if pairs.len() == 0 {
        Seq::empty()
    } else {
        let rest = table_account_names(pairs.drop_last());
        if pairs.last().key == "name"@ {
            match pairs.last().value {
                ValueModel::Text(t) => rest.push(t),
                _ => rest,
            }
        } else {
            rest
        }
    }
}

/// The account names one array value contributes, element by element.
pub open spec fn array_account_names(items: Seq<ValueModel>) -> Seq<Seq<char>>
    decreases items.len(),
{
    if items.len() == 0 {
        Seq::empty()
    } else {
        array_account_names(items.drop_last()) + match items.last() {
            ValueModel::Table(pairs) => table_account_names(pairs),
            _ => Seq::empty(),
        }
    }
}

/// The environment's declared account names: what its `accounts` assignments
/// contribute, in document order.
pub open spec fn spec_account_names(doc: Seq<AssignModel>, env: Seq<char>) -> Seq<Seq<char>>
    decreases doc.len(),
{
    if doc.len() == 0 {
        Seq::empty()
    } else {
        spec_account_names(doc.drop_last(), env) + (
        if doc.last().path == seq![env, "accounts"@] {
            match doc.last().value {
                ValueModel::Array(items) => array_account_names(items),
                _ => Seq::empty(),
            }
        } else {
            Seq::empty()
        })
    }
}

/// A network field of the environment: the text of the last assignment to
/// `<env>.network.<key>`, or empty if there is none.
pub open spec fn spec_network_field(doc: Seq<AssignModel>, env: Seq<char>, key: Seq<char>) -> Seq<
    char,
>
    decreases doc.len(),
{
    if doc.len() == 0 {
        Seq::empty()
    } else if doc.last().path == seq![env, "network"@, key] {
        match doc.last().value {
            ValueModel::Text(t) => t,
            _ => spec_network_field(doc.drop_last(), env, key),
        }
    } else {
        spec_network_field(doc.drop_last(), env, key)
    }
}

/// Does this assignment belong to the environment's contract table? If so, the
/// contract's name is the third part of the key path.
pub open spec fn spec_contract_assign(a: AssignModel, env: Seq<char>) -> bool {
    a.path.len() >= 3 && a.path[0] == env && a.path[1]
        == "contracts"@
}

/// The environment's contract names, in first-appearance order — the order
/// the contracts are declared in, which init scripts run in.
pub open spec fn spec_contract_names(doc: Seq<AssignModel>, env: Seq<char>) -> Seq<Seq<char>>
    decreases doc.len(),
{
    if doc.len() == 0 {
        Seq::empty()
    } else {
        let rest = spec_contract_names(doc.drop_last(), env);
        if spec_contract_assign(doc.last(), env) {
            let name = doc.last().path[2];
            if rest.contains(name) {
                rest
            } else {
                rest.push(name)
            }
        } else {
            rest
        }
    }
}

/// The view of an optional text field.
pub open spec fn opt_text(o: Option<String>) -> Option<Seq<char>> {
    match o {
        Option::None => Option::None,
        Option::Some(s) => Option::Some(s@),
    }
}

/// The last boolean an inline table assigns under this key, if any.
pub open spec fn table_flag(pairs: Seq<PairModel>, key: Seq<char>) -> Option<bool>
    decreases pairs.len(),
{
    if pairs.len() == 0 {
        Option::None
    } else if pairs.last().key == key && pairs.last().value is Flag {
        Option::Some(pairs.last().value->Flag_0)
    } else {
        table_flag(pairs.drop_last(), key)
    }
}

/// The last text an inline table assigns under either of these keys, if any.
pub open spec fn table_text(pairs: Seq<PairModel>, key1: Seq<char>, key2: Seq<char>) -> Option<
    Seq<char>,
>
    decreases pairs.len(),
{
    if pairs.len() == 0 {
        Option::None
    } else if (pairs.last().key == key1 || pairs.last().key == key2) && pairs.last().value
        is Text {
        Option::Some(pairs.last().value->Text_0)
    } else {
        table_text(pairs.drop_last(), key1, key2)
    }
}

/// Does this assignment address the named contract's whole spec (an inline
/// table under `<env>.contracts.<name>`)?
pub open spec fn spec_assign_is_table(a: AssignModel, env: Seq<char>, name: Seq<char>) -> bool {
    a.path.len() == 3 && a.path[0] == env && a.path[1]
        == "contracts"@ && a.path[2] == name
}

/// Does this assignment address one field of the named contract
/// (`<env>.contracts.<name>.<key>`)?
pub open spec fn spec_assign_is_field(
    a: AssignModel,
    env: Seq<char>,
    name: Seq<char>,
    key: Seq<char>,
) -> bool {
    a.path.len() == 4 && a.path[0] == env && a.path[1]
        == "contracts"@ && a.path[2] == name && a.path[3] == key
}

/// The boolean one assignment contributes to this field of this contract.
pub open spec fn assign_flag(a: AssignModel, env: Seq<char>, name: Seq<char>, key: Seq<char>) -> Option<bool> {
    if spec_assign_is_field(a, env, name, key) && a.value is Flag {
        Option::Some(a.value->Flag_0)
    } else if spec_assign_is_table(a, env, name) && a.value is Table {
        table_flag(a.value->Table_0, key)
    } else {
        Option::None
    }
}

/// The text one assignment contributes to this field of this contract; the
/// field answers to either key name.
pub open spec fn assign_text(
    a: AssignModel,
    env: Seq<char>,
    name: Seq<char>,
    key1: Seq<char>,
    key2: Seq<char>,
) -> Option<Seq<char>> {
    if (spec_assign_is_field(a, env, name, key1) || spec_assign_is_field(a, env, name, key2))
        && a.value is Text {
        Option::Some(a.value->Text_0)
    } else if spec_assign_is_table(a, env, name) && a.value is Table {
        table_text(a.value->Table_0, key1, key2)
    } else {
        Option::None
    }
}

/// The named contract's boolean field: what the last assignment to it says,
/// or the default when the document never assigns it.
pub open spec fn spec_contract_flag(
    doc: Seq<AssignModel>,
    env: Seq<char>,
    name: Seq<char>,
    key: Seq<char>,
    default: bool,
) -> bool
    decreases doc.len(),
{
    if doc.len() == 0 {
        default
    } else {
        match assign_flag(doc.last(), env, name, key) {
            Option::Some(b) => b,
            Option::None => spec_contract_flag(doc.drop_last(), env, name, key, default),
        }
    }
}

/// The named contract's optional text field: what the last assignment to it
/// says, if any.
pub open spec fn spec_contract_text(
    doc: Seq<AssignModel>,
    env: Seq<char>,
    name: Seq<char>,
    key1: Seq<char>,
    key2: Seq<char>,
) -> Option<Seq<char>>
    decreases doc.len(),
{
    if doc.len() == 0 {
        Option::None
    } else {
        match assign_text(doc.last(), env, name, key1, key2) {
            Option::Some(t) => Option::Some(t),
            Option::None => spec_contract_text(doc.drop_last(), env, name, key1, key2),
        }
    }
}

/// What the document gives the named contract, field by field: `workspace`
/// and `client` default to true; `init` must be declared to exist; the alias
/// answers to `id` or `alias`.
pub open spec fn spec_contract_spec(doc: Seq<AssignModel>, env: Seq<char>, name: Seq<char>) -> ContractModel {
    ContractModel {
        name: name,
        workspace: spec_contract_flag(doc, env, name, "workspace"@, true),
        alias: spec_contract_text(doc, env, name, "id"@, "alias"@),
        client: spec_contract_flag(doc, env, name, "client"@, true),
        init: spec_contract_text(doc, env, name, "init"@, "init"@),
    }
}

/// Append the accounts one inline table contributes.
fn push_table_accounts(accounts: &mut Vec<Account>, pairs: &Vec<TomlPair>)
    ensures
        account_names(final(accounts)@) == account_names(old(accounts)@) + table_account_names(
            seq_pair_models(pairs@),
        ),
{
    let ghost mp = seq_pair_models(pairs@);
    proof {
        lemma_seq_pair_models(pairs@);
    }
    let p = pairs.len();
    let mut q: usize = 0;
    proof {
        assert(mp.subrange(0, 0) =~= Seq::<PairModel>::empty());
        assert(account_names(accounts@) =~= account_names(old(accounts)@) + table_account_names(
            mp.subrange(0, 0),
        ));
    }
    while q < p
        invariant
            0 <= q <= p,
            p == pairs@.len(),
            mp == seq_pair_models(pairs@),
            mp.len() == p,
            forall|k: int|
                0 <= k < p ==> #[trigger] mp[k] == (PairModel {
                    key: pairs@[k].key@,
                    value: pairs@[k].value.model(),
                }),
            account_names(accounts@) == account_names(old(accounts)@) + table_account_names(
                mp.subrange(0, q as int),
            ),
        decreases p - q,
    {
        proof {
            assert(mp.subrange(0, q + 1).drop_last() =~= mp.subrange(0, q as int));
            assert(mp.subrange(0, q + 1).last() == mp[q as int]);
        }
        let pair = &pairs[q];
        if str_eq(pair.key.as_str(), "name") {
            match &pair.value {
                TomlValue::Text(t) => {
                    let ghost before = account_names(accounts@);
                    proof {
                        assert(pairs@[q as int].value.model() == ValueModel::Text(t@));
                    }
                    accounts.push(Account { name: t.clone() });
                    proof {
                        assert(account_names(accounts@) =~= before.push(t@));
                        assert(account_names(accounts@) =~= account_names(old(accounts)@)
                            + table_account_names(mp.subrange(0, q + 1)));
                    }
                },
                _ => {
                    proof {
                        assert(!(pairs@[q as int].value.model() is Text));
                    }
                },
            }
        }
        proof {
            assert(account_names(accounts@) =~= account_names(old(accounts)@)
                + table_account_names(mp.subrange(0, q + 1)));
        }
        q = q + 1;
    }
    proof {
        assert(mp.subrange(0, p as int) =~= mp);
    }
}

/// Append the accounts one array value contributes.
fn push_array_accounts(accounts: &mut Vec<Account>, items: &Vec<TomlValue>)
    ensures
        account_names(final(accounts)@) == account_names(old(accounts)@) + array_account_names(
            seq_value_models(items@),
        ),
{
    let ghost mi = seq_value_models(items@);
    proof {
        lemma_seq_value_models(items@);
    }
    let m = items.len();
    let mut k: usize = 0;
    proof {
        assert(mi.subrange(0, 0) =~= Seq::<ValueModel>::empty());
        assert(account_names(accounts@) =~= account_names(old(accounts)@) + array_account_names(
            mi.subrange(0, 0),
        ));
    }
    while k < m
        invariant
            0 <= k <= m,
            m == items@.len(),
            mi == seq_value_models(items@),
            mi.len() == m,
            forall|w: int| 0 <= w < m ==> #[trigger] mi[w] == items@[w].model(),
            account_names(accounts@) == account_names(old(accounts)@) + array_account_names(
                mi.subrange(0, k as int),
            ),
        decreases m - k,
    {
        proof {
            assert(mi.subrange(0, k + 1).drop_last() =~= mi.subrange(0, k as int));
            assert(mi.subrange(0, k + 1).last() == mi[k as int]);
        }
        match &items[k] {
            TomlValue::Table(pairs) => {
                proof {
                    assert(items@[k as int].model() == ValueModel::Table(seq_pair_models(pairs@)));
                }
                push_table_accounts(accounts, pairs);
                proof {
                    assert(account_names(accounts@) =~= account_names(old(accounts)@)
                        + array_account_names(mi.subrange(0, k + 1)));
                }
            },
            _ => {
                proof {
                    assert(!(items@[k as int].model() is Table));
                    assert(account_names(accounts@) =~= account_names(old(accounts)@)
                        + array_account_names(mi.subrange(0, k + 1)));
                }
            },
        }
        k = k + 1;
    }
    proof {
        assert(mi.subrange(0, m as int) =~= mi);
    }
}

/// Fold one contract-table field into a contract's spec; unknown keys are
/// ignored, so unrelated additions to the file do not break a pass.
fn apply_contract_field(sp: &mut ContractSpec, key: &str, value: &TomlValue)
    ensures
        final(sp).workspace == (if key@ == "workspace"@ && value is Flag {
            value->Flag_0
        } else {
            old(sp).workspace
        }),
        final(sp).client == (if key@ == "client"@ && value is Flag {
            value->Flag_0
        } else {
            old(sp).client
        }),
        opt_text(final(sp).init) == (if key@ == "init"@ && value is Text {
            Option::Some(value->Text_0@)
        } else {
            opt_text(old(sp).init)
        }),
        opt_text(final(sp).alias) == (if (key@ == "id"@ || key@ == "alias"@) && value is Text {
            Option::Some(value->Text_0@)
        } else {
            opt_text(old(sp).alias)
        }),
{
    proof {
        reveal_strlit("workspace");
        reveal_strlit("client");
        reveal_strlit("init");
        reveal_strlit("id");
        reveal_strlit("alias");
        assert("workspace"@.len() == 9 && "client"@.len() == 6 && "init"@.len() == 4
            && "id"@.len() == 2 && "alias"@.len() == 5);
    }
    if str_eq(key, "workspace") {
        match value {
            TomlValue::Flag(b) => {
                sp.workspace = *b;
            },
            _ => {},
        }
    } else if str_eq(key, "client") {
        match value {
            TomlValue::Flag(b) => {
                sp.client = *b;
            },
            _ => {},
        }
    } else if str_eq(key, "init") {
        match value {
            TomlValue::Text(t) => {
                sp.init = Some(t.clone());
            },
            _ => {},
        }
    } else if str_eq(key, "id") || str_eq(key, "alias") {
        match value {
            TomlValue::Text(t) => {
                sp.alias = Some(t.clone());
            },
            _ => {},
        }
    }
}

/// Build one environment out of the document's assignments: its accounts (in
/// order), its network descriptor, and its contract table in first-appearance
/// order — the order that init scripts will run in.
pub fn interpret(doc: &Vec<TomlAssign>, env_name: &str) -> (r: Result<Environment, ConfigError>)
    ensures
        r is Ok <==> spec_env_mentioned(doc_models(doc@), env_name@),
        r matches Ok(env) ==> env.name@ == env_name@ && account_names(env.accounts@)
            == spec_account_names(doc_models(doc@), env_name@) && env.network.rpc_url@
            == spec_network_field(doc_models(doc@), env_name@, "rpc-url"@)
            && env.network.network_passphrase@ == spec_network_field(
            doc_models(doc@),
            env_name@,
            "network-passphrase"@,
        ) && contract_names(env.contracts@) == spec_contract_names(doc_models(doc@), env_name@)
            && (forall|p: int, q: int|
            0 <= p < q < env.contracts@.len() ==> env.contracts@[p].name@
                != env.contracts@[q].name@) && (forall|k: int|
            0 <= k < env.contracts@.len() ==> #[trigger] contract_models(env.contracts@)[k]
                == spec_contract_spec(doc_models(doc@), env_name@, env.contracts@[k].name@)),
        r matches Err(e) ==> e matches ConfigError::NoSuchEnvironment { name } && name@
            == env_name@,
{
    let ghost dm = doc_models(doc@);
    let n = doc.len();
    let mut mentioned: bool = false;
    let mut rpc_url = crate::text::empty_string();
    let mut network_passphrase = crate::text::empty_string();
    let mut accounts: Vec<Account> = Vec::new();
    let mut names: Vec<String> = Vec::new();
    let mut i: usize = 0;
    proof {
        assert(dm.subrange(0, 0) =~= Seq::<AssignModel>::empty());
        assert(account_names(accounts@) =~= spec_account_names(dm.subrange(0, 0), env_name@));
        assert(names.deep_view() =~= spec_contract_names(dm.subrange(0, 0), env_name@));
    }
    while i < n
        invariant
            0 <= i <= n,
            n == doc@.len(),
            dm == doc_models(doc@),
            dm.len() == n,
            mentioned ==> spec_env_mentioned(dm, env_name@),
            !mentioned ==> (forall|k: int|
                0 <= k < i ==> !((#[trigger] dm[k]).path.len() > 0 && dm[k].path[0]
                    == env_name@)),
            account_names(accounts@) == spec_account_names(dm.subrange(0, i as int), env_name@),
            rpc_url@ == spec_network_field(dm.subrange(0, i as int), env_name@, "rpc-url"@),
            network_passphrase@ == spec_network_field(
                dm.subrange(0, i as int),
                env_name@,
                "network-passphrase"@,
            ),
            names.deep_view() == spec_contract_names(dm.subrange(0, i as int), env_name@),
            forall|p: int, q: int|
                0 <= p < q < names.deep_view().len() ==> names.deep_view()[p]
                    != names.deep_view()[q],
        decreases n - i,
    {
        let ghost pre = dm.subrange(0, i as int);
        let ghost post = dm.subrange(0, i + 1);
        let ghost pv = doc@[i as int].path.deep_view();
        proof {
            assert(post.drop_last() =~= pre);
            assert(dm[i as int] == doc@[i as int].model());
            assert(post.last() == dm[i as int]);
            assert(dm[i as int].path == pv);
            assert(dm[i as int].value == doc@[i as int].value.model());
        }
        let a = &doc[i];
        let plen = a.path.len();
        let is_env = plen >= 1 && str_eq(a.path[0].as_str(), env_name);
        let is_accounts = is_env && plen == 2 && str_eq(a.path[1].as_str(), "accounts");
        let is_network = is_env && plen == 3 && str_eq(a.path[1].as_str(), "network");
        let is_net_url = is_network && str_eq(a.path[2].as_str(), "rpc-url");
        let is_net_pass = !is_net_url && is_network && str_eq(
            a.path[2].as_str(),
            "network-passphrase",
        );
        let is_contract = is_env && plen >= 3 && str_eq(a.path[1].as_str(), "contracts");
        proof {
            assert(pv.len() == plen);
            assert(forall|k: int| 0 <= k < plen ==> pv[k] == doc@[i as int].path@[k]@);
            assert(is_accounts <==> pv == seq![env_name@, "accounts"@]) by {
                if pv == seq![env_name@, "accounts"@] {
                    assert(pv.len() == 2);
                    assert(pv[0] == env_name@ && pv[1] == "accounts"@);
                }
                if is_accounts {
                    assert(pv =~= seq![env_name@, "accounts"@]);
                }
            }
            assert(is_net_url <==> pv == seq![env_name@, "network"@, "rpc-url"@]) by {
                if pv == seq![env_name@, "network"@, "rpc-url"@] {
                    assert(pv.len() == 3);
                    assert(pv[0] == env_name@ && pv[1] == "network"@ && pv[2] == "rpc-url"@);
                }
                if is_net_url {
                    assert(pv =~= seq![env_name@, "network"@, "rpc-url"@]);
                }
            }
            assert(is_net_pass <==> pv == seq![env_name@, "network"@, "network-passphrase"@]) by {
                if pv == seq![env_name@, "network"@, "network-passphrase"@] {
                    assert(pv.len() == 3);
                    assert(pv[0] == env_name@ && pv[1] == "network"@ && pv[2]
                        == "network-passphrase"@);
                    assert(pv != seq![env_name@, "network"@, "rpc-url"@]) by {
                        reveal_strlit("rpc-url");
                        reveal_strlit("network-passphrase");
                        assert("rpc-url"@.len() != "network-passphrase"@.len());
                        assert(seq![env_name@, "network"@, "rpc-url"@][2] == "rpc-url"@);
                    }
                }
                if is_net_pass {
                    assert(pv =~= seq![env_name@, "network"@, "network-passphrase"@]);
                }
            }
            assert(is_contract <==> spec_contract_assign(dm[i as int], env_name@));
            assert("network"@ != "contracts"@) by {
                reveal_strlit("network");
                reveal_strlit("contracts");
                assert("network"@.len() != "contracts"@.len());
            }
        }
        if is_env {
            proof {
                assert(dm[i as int].path.len() > 0 && dm[i as int].path[0] == env_name@);
            }
            mentioned = true;
        }
        if is_accounts {
            match &a.value {
                TomlValue::Array(items) => {
                    proof {
                        assert(dm[i as int].value == ValueModel::Array(seq_value_models(items@)));
                    }
                    push_array_accounts(&mut accounts, items);
                },
                _ => {
                    proof {
                        assert(!(dm[i as int].value is Array));
                    }
                },
            }
        } else if is_net_url {
            match &a.value {
                TomlValue::Text(t) => {
                    proof {
                        assert(dm[i as int].value == ValueModel::Text(t@));
                    }
                    rpc_url = t.clone();
                },
                _ => {
                    proof {
                        assert(!(dm[i as int].value is Text));
                    }
                },
            }
        } else if is_net_pass {
            match &a.value {
                TomlValue::Text(t) => {
                    proof {
                        assert(dm[i as int].value == ValueModel::Text(t@));
                    }
                    network_passphrase = t.clone();
                },
                _ => {
                    proof {
                        assert(!(dm[i as int].value is Text));
                    }
                },
            }
        } else if is_contract {
            if !contains_name(&names, a.path[2].as_str()) {
                let ghost before = names.deep_view();
                names.push(a.path[2].clone());
                proof {
                    assert(names.deep_view() =~= before.push(pv[2]));
                }
            }
        }
        proof {
            assert(account_names(accounts@) =~= spec_account_names(post, env_name@));
            assert(rpc_url@ =~= spec_network_field(post, env_name@, "rpc-url"@));
            assert(network_passphrase@ =~= spec_network_field(
                post,
                env_name@,
                "network-passphrase"@,
            ));
            assert(names.deep_view() =~= spec_contract_names(post, env_name@));
        }
        i = i + 1;
    }
    proof {
        assert(dm.subrange(0, n as int) =~= dm);
    }
    if !mentioned {
        return Err(ConfigError::NoSuchEnvironment { name: env_name.to_owned() });
    }
    // Fold each contract's fields, wherever in the document they stand, into
    // its spec; the table keeps first-appearance order.
    let mut contracts: Vec<Contract> = Vec::new();
    let cn = names.len();
    let mut c: usize = 0;
    let ghost names_view = names.deep_view();
    while c < cn
        invariant
            0 <= c <= cn,
            cn == names@.len(),
            n == doc@.len(),
            names.deep_view() == names_view,
            forall|p: int, q: int|
                0 <= p < q < names_view.len() ==> names_view[p] != names_view[q],
            contracts@.len() == c,
            forall|p: int|
                0 <= p < c ==> (#[trigger] contracts@[p]).name@ == names_view[p],
            dm == doc_models(doc@),
            dm.len() == n,
            forall|p: int|
                0 <= p < c ==> #[trigger] contract_models(contracts@)[p] == spec_contract_spec(
                    dm,
                    env_name@,
                    names_view[p],
                ),
        decreases cn - c,
    {
        let ghost nk = names_view[c as int];
        let mut sp = ContractSpec { workspace: true, alias: None, client: true, init: None };
        let mut k: usize = 0;
        proof {
            assert(dm.subrange(0, 0) =~= Seq::<AssignModel>::empty());
        }
        while k < n
            invariant
                0 <= k <= n,
                n == doc@.len(),
                dm == doc_models(doc@),
                dm.len() == n,
                c < cn,
                cn == names@.len(),
                names.deep_view() == names_view,
                nk == names_view[c as int],
                sp.workspace == spec_contract_flag(
                    dm.subrange(0, k as int),
                    env_name@,
                    nk,
                    "workspace"@,
                    true,
                ),
                sp.client == spec_contract_flag(
                    dm.subrange(0, k as int),
                    env_name@,
                    nk,
                    "client"@,
                    true,
                ),
                opt_text(sp.init) == spec_contract_text(
                    dm.subrange(0, k as int),
                    env_name@,
                    nk,
                    "init"@,
                    "init"@,
                ),
                opt_text(sp.alias) == spec_contract_text(
                    dm.subrange(0, k as int),
                    env_name@,
                    nk,
                    "id"@,
                    "alias"@,
                ),
            decreases n - k,
        {
            let ghost pre = dm.subrange(0, k as int);
            let ghost post = dm.subrange(0, k + 1);
            let ghost pv = doc@[k as int].path.deep_view();
            proof {
                assert(post.drop_last() =~= pre);
                assert(dm[k as int] == doc@[k as int].model());
                assert(post.last() == dm[k as int]);
                assert(dm[k as int].path == pv);
                assert(dm[k as int].value == doc@[k as int].value.model());
                assert(doc@[k as int].value is Flag ==> dm[k as int].value == ValueModel::Flag(
                    doc@[k as int].value->Flag_0,
                ));
                assert(doc@[k as int].value is Text ==> dm[k as int].value == ValueModel::Text(
                    doc@[k as int].value->Text_0@,
                ));
                assert(doc@[k as int].value is Table ==> dm[k as int].value == ValueModel::Table(
                    seq_pair_models(doc@[k as int].value->Table_0@),
                ));
                assert(dm[k as int].value is Flag ==> doc@[k as int].value is Flag);
                assert(dm[k as int].value is Text ==> doc@[k as int].value is Text);
                assert(dm[k as int].value is Table ==> doc@[k as int].value is Table);
            }
            let a = &doc[k];
            let plen = a.path.len();
            let for_name = plen >= 3 && str_eq(a.path[0].as_str(), env_name) && str_eq(
                a.path[1].as_str(),
                "contracts",
            ) && str_eq(a.path[2].as_str(), names[c].as_str());
            proof {
                assert(pv.len() == plen);
                assert(forall|m: int| 0 <= m < plen ==> pv[m] == doc@[k as int].path@[m]@);
                assert(names@[c as int]@ == nk);
                assert(spec_assign_is_table(dm[k as int], env_name@, nk) <==> (for_name && plen
                    == 3));
                assert(forall|key: Seq<char>|
                    #[trigger] spec_assign_is_field(dm[k as int], env_name@, nk, key) <==> (
                    for_name && plen == 4 && pv[3] == key));
            }
            if for_name {
                if plen == 4 {
                    apply_contract_field(&mut sp, a.path[3].as_str(), &a.value);
                    proof {
                        assert(doc@[k as int].path@[3]@ == pv[3]);
                    }
                } else if plen == 3 {
                    match &a.value {
                        TomlValue::Table(pairs) => {
                            let ghost mp = seq_pair_models(pairs@);
                            let ghost entry_ws = sp.workspace;
                            let ghost entry_cl = sp.client;
                            let ghost entry_init = opt_text(sp.init);
                            let ghost entry_alias = opt_text(sp.alias);
                            let p = pairs.len();
                            let mut q: usize = 0;
                            proof {
                                lemma_seq_pair_models(pairs@);
                                assert(dm[k as int].value == ValueModel::Table(mp));
                                assert(mp.subrange(0, 0) =~= Seq::<PairModel>::empty());
                            }
                            while q < p
                                invariant
                                    0 <= q <= p,
                                    p == pairs@.len(),
                                    mp == seq_pair_models(pairs@),
                                    mp.len() == p,
                                    forall|w: int|
                                        0 <= w < p ==> #[trigger] mp[w] == (PairModel {
                                            key: pairs@[w].key@,
                                            value: pairs@[w].value.model(),
                                        }),
                                    sp.workspace == (match table_flag(
                                        mp.subrange(0, q as int),
                                        "workspace"@,
                                    ) {
                                        Option::Some(b) => b,
                                        Option::None => entry_ws,
                                    }),
                                    sp.client == (match table_flag(
                                        mp.subrange(0, q as int),
                                        "client"@,
                                    ) {
                                        Option::Some(b) => b,
                                        Option::None => entry_cl,
                                    }),
                                    opt_text(sp.init) == (match table_text(
                                        mp.subrange(0, q as int),
                                        "init"@,
                                        "init"@,
                                    ) {
                                        Option::Some(t) => Option::Some(t),
                                        Option::None => entry_init,
                                    }),
                                    opt_text(sp.alias) == (match table_text(
                                        mp.subrange(0, q as int),
                                        "id"@,
                                        "alias"@,
                                    ) {
                                        Option::Some(t) => Option::Some(t),
                                        Option::None => entry_alias,
                                    }),
                                decreases p - q,
                            {
                                proof {
                                    assert(mp.subrange(0, q + 1).drop_last() =~= mp.subrange(
                                        0,
                                        q as int,
                                    ));
                                    assert(mp.subrange(0, q + 1).last() == mp[q as int]);
                                    assert(mp[q as int].key == pairs@[q as int].key@);
                                    assert(mp[q as int].value == pairs@[q as int].value.model());
                                    assert(pairs@[q as int].value is Flag ==> mp[q as int].value
                                        == ValueModel::Flag(pairs@[q as int].value->Flag_0));
                                    assert(pairs@[q as int].value is Text ==> mp[q as int].value
                                        == ValueModel::Text(pairs@[q as int].value->Text_0@));
                                    assert(mp[q as int].value is Flag ==> pairs@[q as int].value
                                        is Flag);
                                    assert(mp[q as int].value is Text ==> pairs@[q as int].value
                                        is Text);
                                }
                                let pair: &TomlPair = &pairs[q];
                                apply_contract_field(&mut sp, pair.key.as_str(), &pair.value);
                                q = q + 1;
                            }
                            proof {
                                assert(mp.subrange(0, p as int) =~= mp);
                            }
                        },
                        _ => {
                            proof {
                                assert(!(dm[k as int].value is Table));
                            }
                        },
                    }
                }
            }
            proof {
                assert(sp.workspace == spec_contract_flag(post, env_name@, nk, "workspace"@, true));
                assert(sp.client == spec_contract_flag(post, env_name@, nk, "client"@, true));
                assert(opt_text(sp.init) == spec_contract_text(post, env_name@, nk, "init"@, "init"@));
                assert(opt_text(sp.alias) == spec_contract_text(post, env_name@, nk, "id"@, "alias"@));
            }
            k = k + 1;
        }
        proof {
            assert(dm.subrange(0, n as int) =~= dm);
        }
        let entry = Contract { name: names[c].clone(), spec: sp };
        proof {
            assert(entry.model() == spec_contract_spec(dm, env_name@, nk));
        }
        let ghost old_contracts = contracts@;
        contracts.push(entry);
        proof {
            assert forall|p: int|
                0 <= p < c + 1 implies #[trigger] contract_models(contracts@)[p]
                == spec_contract_spec(dm, env_name@, names_view[p]) by {
                if p < c {
                    assert(contracts@[p] == old_contracts[p]);
                    assert(contract_models(old_contracts)[p] == spec_contract_spec(
                        dm,
                        env_name@,
                        names_view[p],
                    ));
                } else {
                    assert(contracts@[p] == entry);
                }
            }
        }
        c = c + 1;
    }
    proof {
        assert(contract_names(contracts@) =~= names_view);
        assert(forall|p: int, q: int|
            0 <= p < q < contracts@.len() ==> (#[trigger] contracts@[p]).name@ != (
            #[trigger] contracts@[q]).name@);
    }
    Ok(
        Environment {
            name: env_name.to_owned(),
            network: NetworkDescriptor { rpc_url, network_passphrase },
            accounts,
            contracts,
        },
    )
}

/// The contract table built by `interpret` is the document's contract table.
proof fn lemma_contract_table_eq(contracts: Seq<Contract>, dm: Seq<AssignModel>, env: Seq<char>)
    requires
        contract_names(contracts) == spec_contract_names(dm, env),
        forall|k: int|
            0 <= k < contracts.len() ==> #[trigger] contract_models(contracts)[k]
                == spec_contract_spec(dm, env, contracts[k].name@),
    ensures
        contract_models(contracts) == spec_contract_table(dm, env),
{
    assert forall|k: int|
        0 <= k < contracts.len() implies #[trigger] contract_models(contracts)[k]
        == spec_contract_table(dm, env)[k] by {
        assert(contract_names(contracts)[k] == contracts[k].name@);
    }
    assert(contract_models(contracts) =~= spec_contract_table(dm, env));
}

/// The parsed document of the description text, where the text parses.
pub open spec fn spec_config_doc(text: Seq<char>) -> Seq<AssignModel> {
    spec_parse_document(text)->Some_0
}

/// The environment's contract table, as the document gives it: the declared
/// names in declaration order, each with its folded fields.
pub open spec fn spec_contract_table(doc: Seq<AssignModel>, env: Seq<char>) -> Seq<ContractModel> {
    Seq::new(
        spec_contract_names(doc, env).len(),
        |k: int| spec_contract_spec(doc, env, spec_contract_names(doc, env)[k]),
    )
}

/// When a parsed document yields the environment: it is declared, its account
/// names are unique, and every configured contract resolves to a workspace
/// package or a declared alias.
pub open spec fn spec_doc_ok(d: Seq<AssignModel>, env: Seq<char>, packages: Seq<Seq<char>>) -> bool {
    &&& spec_env_mentioned(d, env)
    &&& (forall|p: int, q: int|
        0 <= p < q < spec_account_names(d, env).len() ==> spec_account_names(d, env)[p]
            != spec_account_names(d, env)[q])
    &&& spec_first_unknown(spec_contract_table(d, env), packages) is None
}

/// When loading an environment out of the description text succeeds: the text
/// parses, the named environment is declared, its account names are unique,
/// and every configured contract resolves to a workspace package or a
/// declared alias.
pub open spec fn spec_load_ok(text: Seq<char>, env: Seq<char>, packages: Seq<Seq<char>>) -> bool {
    &&& spec_parse_document(text) is Some
    &&& spec_doc_ok(spec_config_doc(text), env, packages)
}

/// Read one environment out of the description text and validate it: the
/// named environment must be declared, account names must be unique, and
/// every configured contract must resolve to a workspace package or a
/// declared alias — all before any build or deploy work begins. Succeeds
/// exactly when `spec_load_ok` holds of the text, returning the environment
/// the document describes; each failure names its subject.
pub fn load(text: &str, env_name: &str, packages: &Vec<String>) -> (r: Result<
    Environment,
    ConfigError,
>)
    ensures
        r is Ok <==> spec_load_ok(text@, env_name@, packages.deep_view()),
        r matches Ok(env) ==> ({
            let doc = spec_config_doc(text@);
            &&& env.name@ == env_name@
            &&& account_names(env.accounts@) == spec_account_names(doc, env_name@)
            &&& env.network.rpc_url@ == spec_network_field(doc, env_name@, "rpc-url"@)
            &&& env.network.network_passphrase@ == spec_network_field(
                doc,
                env_name@,
                "network-passphrase"@,
            )
            &&& contract_names(env.contracts@) == spec_contract_names(doc, env_name@)
            &&& contract_models(env.contracts@) == spec_contract_table(doc, env_name@)
        }),
        r matches Err(e) ==> ({
            let doc = spec_config_doc(text@);
            let anames = spec_account_names(doc, env_name@);
            let table = spec_contract_table(doc, env_name@);
            &&& (e matches ConfigError::Malformed { .. } ==> spec_parse_document(text@) is None)
            &&& (e matches ConfigError::NoSuchEnvironment { name } ==> name@ == env_name@
                && spec_parse_document(text@) is Some && !spec_env_mentioned(doc, env_name@))
            &&& (e matches ConfigError::DuplicateAccount { account } ==> spec_parse_document(
                text@,
            ) is Some && exists|p: int, q: int|
                0 <= p < q < anames.len() && anames[p] == anames[q] && account@ == anames[q])
            &&& (e matches ConfigError::UnknownContract { contract } ==> spec_parse_document(
                text@,
            ) is Some && (spec_first_unknown(table, packages.deep_view()) matches Some(w)
                && contract@ == table[w].name))
        }),
{
    let doc = match parse_document(text) {
        Ok(d) => d,
        Err(e) => {
            return Err(e);
        },
    };
    proof {
        assert(spec_config_doc(text@) == doc_models(doc@));
    }
    load_parsed(doc, env_name, packages)
}

/// Interpret and validate a parsed document.
#[verifier::rlimit(100)]
fn load_parsed(doc: Vec<TomlAssign>, env_name: &str, packages: &Vec<String>) -> (r: Result<
    Environment,
    ConfigError,
>)
    ensures
        r is Ok <==> spec_doc_ok(doc_models(doc@), env_name@, packages.deep_view()),
        r matches Ok(env) ==> ({
            let d = doc_models(doc@);
            &&& env.name@ == env_name@
            &&& account_names(env.accounts@) == spec_account_names(d, env_name@)
            &&& env.network.rpc_url@ == spec_network_field(d, env_name@, "rpc-url"@)
            &&& env.network.network_passphrase@ == spec_network_field(
                d,
                env_name@,
                "network-passphrase"@,
            )
            &&& contract_names(env.contracts@) == spec_contract_names(d, env_name@)
            &&& contract_models(env.contracts@) == spec_contract_table(d, env_name@)
        }),
        r matches Err(e) ==> ({
            let d = doc_models(doc@);
            let anames = spec_account_names(d, env_name@);
            let table = spec_contract_table(d, env_name@);
            &&& !(e matches ConfigError::Malformed { .. })
            &&& (e matches ConfigError::NoSuchEnvironment { name } ==> name@ == env_name@
                && !spec_env_mentioned(d, env_name@))
            &&& (e matches ConfigError::DuplicateAccount { account } ==> exists|p: int, q: int|
                0 <= p < q < anames.len() && anames[p] == anames[q] && account@ == anames[q])
            &&& (e matches ConfigError::UnknownContract { contract } ==> (spec_first_unknown(
                table,
                packages.deep_view(),
            ) matches Some(w) && contract@ == table[w].name))
        }),
{
    let ghost dm = doc_models(doc@);
    let env = match interpret(&doc, env_name) {
        Ok(env) => env,
        Err(e) => {
            return Err(e);
        },
    };
    let ghost anames = spec_account_names(dm, env_name@);
    proof {
        assert(forall|k: int|
            0 <= k < env.accounts@.len() ==> anames[k] == (#[trigger] env.accounts@[k]).name@);
    }
    match validate_accounts(&env.accounts) {
        Ok(()) => {},
        Err(e) => {
            proof {
                let (p, q) = choose|p: int, q: int|
                    0 <= p < q < env.accounts@.len() && env.accounts@[p].name@
                        == env.accounts@[q].name@ && (e matches ConfigError::DuplicateAccount {
                        account,
                    } && account@ == env.accounts@[q].name@);
                assert(anames[p] == anames[q]);
            }
            return Err(e);
        },
    }
    let ghost table = spec_contract_table(dm, env_name@);
    proof {
        lemma_contract_table_eq(env.contracts@, dm, env_name@);
    }
    match validate_contracts(&env.contracts, packages) {
        Ok(()) => {},
        Err(e) => {
            proof {
                let models = contract_models(env.contracts@);
                let pkgsv = packages.deep_view();
                assert(spec_first_unknown(table, pkgsv) == spec_first_unknown(models, pkgsv));
                match spec_first_unknown(models, pkgsv) {
                    Option::Some(w) => {
                        assert(0 <= w < models.len());
                        assert(table[w] == models[w]);
                        assert(models[w].name == env.contracts@[w].name@);
                    },
                    Option::None => {
                    },
                }
            }
            return Err(e);
        },
    }
    proof {
        assert(forall|p: int, q: int|
            0 <= p < q < anames.len() ==> anames[p] != anames[q]);
    }
    Ok(env)
}

/// Check that account names are unique, reporting the first duplicated name.
pub fn validate_accounts(accounts: &Vec<Account>) -> (r: Result<(), ConfigError>)
    ensures
        r is Ok <==> (forall|i: int, j: int|
            0 <= i < j < accounts@.len() ==> accounts@[i].name@ != accounts@[j].name@),
        r matches Err(e) ==> e matches ConfigError::DuplicateAccount { account: a }
            && exists|i: int, j: int|
            0 <= i < j < accounts@.len() && accounts@[i].name@ == accounts@[j].name@ && a@
                == accounts@[j].name@,
{
    let n = accounts.len();
    let mut j: usize = 1;
    if n == 0 {
        return Ok(());
    }
    while j < n
        invariant
            1 <= j <= n || n == 0,
            n == accounts@.len(),
            forall|p: int, q: int| 0 <= p < q < j ==> accounts@[p].name@ != accounts@[q].name@,
        decreases n - j,
    {
        let mut i: usize = 0;
        while i < j
            invariant
                0 <= i <= j < n,
                n == accounts@.len(),
                forall|p: int| 0 <= p < i ==> accounts@[p].name@ != accounts@[j as int].name@,
            decreases j - i,
        {
            if str_eq(accounts[i].name.as_str(), accounts[j].name.as_str()) {
                return Err(ConfigError::DuplicateAccount { account: accounts[j].name.clone() });
            }
            i = i + 1;
        }
        j = j + 1;
    }
    Ok(())
}

} // verus!
