//! A reader for the environment description's structured text: table headers,
//! dotted keys, basic and multi-line strings, booleans, arrays and inline
//! tables — the shapes the environments file uses. The reader yields the
//! file's assignments in order, each with its absolute key path; the
//! configuration model interprets them.
//!
//! The whole grammar is mirrored by spec functions over the character
//! sequence (`spec_parse_document` and its helpers), and every reader
//! function is proved equal to its mirror: it succeeds exactly when the
//! mirror accepts, and returns exactly the mirror's value.

use vstd::prelude::*;
use crate::config::ConfigError;

verus! {

broadcast use vstd::std_specs::vec::axiom_vec_index_decreases, vstd::std_specs::vec::axiom_vec_decreases_to_view;

/// A value of the environment description.
#[derive(Debug)]
pub enum TomlValue {
    /// A string, or any scalar kept as its literal text.
    Text(String),
    /// A boolean.
    Flag(bool),
    /// An array of values.
    Array(Vec<TomlValue>),
    /// An inline table of key/value pairs, in order.
    Table(Vec<TomlPair>),
}

/// One key/value pair of an inline table.
#[derive(Debug)]
pub struct TomlPair {
    pub key: String,
    pub value: TomlValue,
}

/// One assignment of the document: the absolute key path (the enclosing table
/// header's path followed by the assignment's own dotted key) and the value.
#[derive(Debug)]
pub struct TomlAssign {
    pub path: Vec<String>,
    pub value: TomlValue,
}

/// The mathematical model of a value.
pub enum ValueModel {
    Text(Seq<char>),
    Flag(bool),
    Array(Seq<ValueModel>),
    Table(Seq<PairModel>),
}

/// The model of one inline-table pair.
pub struct PairModel {
    pub key: Seq<char>,
    pub value: ValueModel,
}

/// The model of one assignment.
pub struct AssignModel {
    pub path: Seq<Seq<char>>,
    pub value: ValueModel,
}

impl TomlValue {
    pub open spec fn model(self) -> ValueModel
        decreases self,
    {
        match self {
            TomlValue::Text(t) => ValueModel::Text(t@),
            TomlValue::Flag(b) => ValueModel::Flag(b),
            TomlValue::Array(items) => ValueModel::Array(seq_value_models(items@)),
            TomlValue::Table(pairs) => ValueModel::Table(seq_pair_models(pairs@)),
        }
    }
}

pub open spec fn seq_value_models(items: Seq<TomlValue>) -> Seq<ValueModel>
    decreases items,
{
    if items.len() == 0 {
        Seq::empty()
    } else {
        seq_value_models(items.drop_last()).push(items.last().model())
    }
}

pub open spec fn seq_pair_models(pairs: Seq<TomlPair>) -> Seq<PairModel>
    decreases pairs,
{
    if pairs.len() == 0 {
        Seq::empty()
    } else {
        seq_pair_models(pairs.drop_last()).push(
            PairModel { key: pairs.last().key@, value: pairs.last().value.model() },
        )
    }
}

pub proof fn lemma_seq_value_models(items: Seq<TomlValue>)
    ensures
        seq_value_models(items).len() == items.len(),
        forall|k: int|
            0 <= k < items.len() ==> #[trigger] seq_value_models(items)[k] == items[k].model(),
    decreases items,
{
    if items.len() > 0 {
        lemma_seq_value_models(items.drop_last());
    }
}

pub proof fn lemma_seq_pair_models(pairs: Seq<TomlPair>)
    ensures
        seq_pair_models(pairs).len() == pairs.len(),
        forall|k: int|
            0 <= k < pairs.len() ==> #[trigger] seq_pair_models(pairs)[k] == (PairModel {
                key: pairs[k].key@,
                value: pairs[k].value.model(),
            }),
    decreases pairs,
{
    if pairs.len() > 0 {
        lemma_seq_pair_models(pairs.drop_last());
    }
}

impl TomlAssign {
    pub open spec fn model(self) -> AssignModel {
        AssignModel { path: self.path.deep_view(), value: self.value.model() }
    }
}

/// The models of a document's assignments, in order.
pub open spec fn doc_models(doc: Seq<TomlAssign>) -> Seq<AssignModel> {
    Seq::new(doc.len(), |i: int| doc[i].model())
}

/// Inline whitespace.
pub open spec fn spec_is_ws(c: char) -> bool {
    c == ' ' || c == '\t'
}

/// Whitespace between items.
pub open spec fn spec_is_blank(c: char) -> bool {
    c == ' ' || c == '\t' || c == '\n' || c == '\r'
}

/// Where inline whitespace starting at `i` ends.
pub open spec fn spec_skip_ws(s: Seq<char>, i: int) -> int
    decreases s.len() - i,
{
    if 0 <= i < s.len() && spec_is_ws(s[i]) {
        spec_skip_ws(s, i + 1)
    } else {
        i
    }
}

/// Where the blank space (whitespace, newlines, `#` comments) starting at `i`
/// ends; `in_comment` is the state inside a comment, which a newline leaves.
pub open spec fn spec_skip_blank(s: Seq<char>, i: int, in_comment: bool) -> int
    decreases s.len() - i, (if in_comment { 1int } else { 0int }),
{
    if i < 0 || i >= s.len() {
        i
    } else if in_comment {
        if s[i] == '\n' {
            spec_skip_blank(s, i, false)
        } else {
            spec_skip_blank(s, i + 1, true)
        }
    } else if spec_is_blank(s[i]) {
        spec_skip_blank(s, i + 1, false)
    } else if s[i] == '#' {
        spec_skip_blank(s, i + 1, true)
    } else {
        i
    }
}

/// A character a bare key may hold.
pub open spec fn spec_is_bare_key_char(c: char) -> bool {
    ('a' <= c && c <= 'z') || ('A' <= c && c <= 'Z') || ('0' <= c && c <= '9') || c == '_' || c
        == '-'
}

/// Where the bare key starting at `i` ends.
pub open spec fn spec_bare_key_end(s: Seq<char>, i: int) -> int
    decreases s.len() - i,
{
    if 0 <= i < s.len() && spec_is_bare_key_char(s[i]) {
        spec_bare_key_end(s, i + 1)
    } else {
        i
    }
}

/// A bare key: at least one bare-key character.
pub open spec fn spec_parse_bare_key(s: Seq<char>, i: int) -> Option<(Seq<char>, int)> {
    let j = spec_bare_key_end(s, i);
    if j == i {
        Option::None
    } else {
        Option::Some((s.subrange(i, j), j))
    }
}

/// The first `c` at or after `i`; `stop_nl` makes a newline end the search
/// unsuccessfully first.
pub open spec fn spec_find_char(s: Seq<char>, i: int, c: char, stop_nl: bool) -> Option<int>
    decreases s.len() - i,
{
    if i < 0 || i >= s.len() {
        Option::None
    } else if s[i] == c {
        Option::Some(i)
    } else if stop_nl && s[i] == '\n' {
        Option::None
    } else {
        spec_find_char(s, i + 1, c, stop_nl)
    }
}

/// A quoted key or single-line basic string: the text between the `"` at `i`
/// and the next `"` on the same line.
pub open spec fn spec_parse_quoted(s: Seq<char>, i: int) -> Option<(Seq<char>, int)> {
    match spec_find_char(s, i + 1, '"', true) {
        Option::None => Option::None,
        Option::Some(j) => Option::Some((s.subrange(i + 1, j), j + 1)),
    }
}

/// A key: quoted or bare.
pub open spec fn spec_parse_key(s: Seq<char>, i: int) -> Option<(Seq<char>, int)> {
    if i < 0 || i >= s.len() {
        Option::None
    } else if s[i] == '"' {
        spec_parse_quoted(s, i)
    } else {
        spec_parse_bare_key(s, i)
    }
}

/// The keys after the first of a dotted key: `.`-separated, spaces allowed
/// around the dots.
pub open spec fn spec_dotted_rest(s: Seq<char>, j: int, acc: Seq<Seq<char>>) -> Option<
    (Seq<Seq<char>>, int),
>
    decreases s.len() - j,
{
    let k = spec_skip_ws(s, j);
    if k < s.len() && s[k] == '.' {
        let k2 = spec_skip_ws(s, k + 1);
        if k2 >= s.len() {
            Option::None
        } else {
            match spec_parse_key(s, k2) {
                Option::None => Option::None,
                Option::Some((part, k3)) => if j < k3 <= s.len() {
                    spec_dotted_rest(s, k3, acc.push(part))
                } else {
                    Option::None
                },
            }
        }
    } else {
        Option::Some((acc, j))
    }
}

/// A dotted key.
pub open spec fn spec_parse_dotted_key(s: Seq<char>, i: int) -> Option<(Seq<Seq<char>>, int)> {
    match spec_parse_key(s, i) {
        Option::None => Option::None,
        Option::Some((first, j)) => spec_dotted_rest(s, j, seq![first]),
    }
}

/// A `"""` delimiter stands at `i`.
pub open spec fn spec_triple_at(s: Seq<char>, i: int) -> bool {
    0 <= i && i + 2 < s.len() && s[i] == '"' && s[i + 1] == '"' && s[i + 2] == '"'
}

/// The first `"""` at or after `j`.
pub open spec fn spec_find_triple(s: Seq<char>, j: int) -> Option<int>
    decreases s.len() - j,
{
    if j < 0 || j >= s.len() {
        Option::None
    } else if spec_triple_at(s, j) {
        Option::Some(j)
    } else {
        spec_find_triple(s, j + 1)
    }
}

/// Where a multi-line string's text starts: after the `"""` at `i`, with a
/// newline right after the delimiter trimmed.
pub open spec fn spec_multiline_start(s: Seq<char>, i: int) -> int {
    if i + 3 < s.len() && s[i + 3] == '\n' {
        i + 4
    } else {
        i + 3
    }
}

/// A multi-line basic string: the text between the `"""` at `i` and the next
/// `"""`, with a newline right after the opening delimiter trimmed.
pub open spec fn spec_parse_multiline(s: Seq<char>, i: int) -> Option<(Seq<char>, int)> {
    let start = spec_multiline_start(s, i);
    match spec_find_triple(s, start) {
        Option::None => Option::None,
        Option::Some(j) => Option::Some((s.subrange(start, j), j + 3)),
    }
}

/// A literal string: the text between the `'` at `i` and the next `'`.
pub open spec fn spec_parse_literal(s: Seq<char>, i: int) -> Option<(Seq<char>, int)> {
    match spec_find_char(s, i + 1, '\'', false) {
        Option::None => Option::None,
        Option::Some(j) => Option::Some((s.subrange(i + 1, j), j + 1)),
    }
}

/// A character that ends a bare scalar.
pub open spec fn spec_is_delim(c: char) -> bool {
    c == ',' || c == ']' || c == '}' || c == '\n' || c == '\r' || c == '#' || c == ' ' || c == '\t'
}

/// Where the bare scalar starting at `i` ends.
pub open spec fn spec_scalar_end(s: Seq<char>, i: int) -> int
    decreases s.len() - i,
{
    if 0 <= i < s.len() && !spec_is_delim(s[i]) {
        spec_scalar_end(s, i + 1)
    } else {
        i
    }
}

/// A bare scalar: at least one character up to the next delimiter.
pub open spec fn spec_parse_scalar(s: Seq<char>, i: int) -> Option<(Seq<char>, int)> {
    let j = spec_scalar_end(s, i);
    if j == i {
        Option::None
    } else {
        Option::Some((s.subrange(i, j), j))
    }
}

/// What a bare scalar means: `true` and `false` are booleans, everything else
/// keeps its literal text.
pub open spec fn spec_scalar_value(t: Seq<char>) -> ValueModel {
    if t == "true"@ {
        ValueModel::Flag(true)
    } else if t == "false"@ {
        ValueModel::Flag(false)
    } else {
        ValueModel::Text(t)
    }
}

/// A value at `i`.
pub open spec fn spec_parse_value(s: Seq<char>, i: int) -> Option<(ValueModel, int)>
    decreases s.len() - i, 0int,
{
    if i < 0 || i >= s.len() {
        Option::None
    } else if s[i] == '"' {
        if spec_triple_at(s, i) {
            match spec_parse_multiline(s, i) {
                Option::None => Option::None,
                Option::Some((t, j)) => Option::Some((ValueModel::Text(t), j)),
            }
        } else {
            match spec_parse_quoted(s, i) {
                Option::None => Option::None,
                Option::Some((t, j)) => Option::Some((ValueModel::Text(t), j)),
            }
        }
    } else if s[i] == '\'' {
        match spec_parse_literal(s, i) {
            Option::None => Option::None,
            Option::Some((t, j)) => Option::Some((ValueModel::Text(t), j)),
        }
    } else if s[i] == '[' {
        spec_array_body(s, i + 1)
    } else if s[i] == '{' {
        spec_table_body(s, i + 1)
    } else {
        match spec_parse_scalar(s, i) {
            Option::None => Option::None,
            Option::Some((t, j)) => Option::Some((spec_scalar_value(t), j)),
        }
    }
}

/// The elements of an array whose `[` stood at `i0 - 1`.
pub open spec fn spec_array_body(s: Seq<char>, i0: int) -> Option<(ValueModel, int)>
    decreases s.len() - i0, 2int,
{
    let j0 = spec_skip_blank(s, i0, false);
    if i0 <= j0 <= s.len() {
        match spec_array_items(s, j0, Seq::empty()) {
            Option::None => Option::None,
            Option::Some((items, j)) => Option::Some((ValueModel::Array(items), j)),
        }
    } else {
        Option::None
    }
}

pub open spec fn spec_array_items(s: Seq<char>, j: int, acc: Seq<ValueModel>) -> Option<
    (Seq<ValueModel>, int),
>
    decreases s.len() - j, 1int,
{
    if j < 0 || j >= s.len() {
        Option::None
    } else if s[j] == ']' {
        Option::Some((acc, j + 1))
    } else {
        match spec_parse_value(s, j) {
            Option::None => Option::None,
            Option::Some((v, j2)) => {
                let j3 = spec_skip_blank(s, j2, false);
                let j4 = if j3 < s.len() && s[j3] == ',' {
                    spec_skip_blank(s, j3 + 1, false)
                } else {
                    j3
                };
                if j < j4 <= s.len() {
                    spec_array_items(s, j4, acc.push(v))
                } else {
                    Option::None
                }
            },
        }
    }
}

/// The pairs of an inline table whose `{` stood at `i0 - 1`.
pub open spec fn spec_table_body(s: Seq<char>, i0: int) -> Option<(ValueModel, int)>
    decreases s.len() - i0, 2int,
{
    let j0 = spec_skip_ws(s, i0);
    if i0 <= j0 <= s.len() {
        match spec_table_items(s, j0, Seq::empty()) {
            Option::None => Option::None,
            Option::Some((pairs, j)) => Option::Some((ValueModel::Table(pairs), j)),
        }
    } else {
        Option::None
    }
}

pub open spec fn spec_table_items(s: Seq<char>, j: int, acc: Seq<PairModel>) -> Option<
    (Seq<PairModel>, int),
>
    decreases s.len() - j, 1int,
{
    if j < 0 || j >= s.len() {
        Option::None
    } else if s[j] == '}' {
        Option::Some((acc, j + 1))
    } else {
        match spec_parse_key(s, j) {
            Option::None => Option::None,
            Option::Some((key, j2)) => {
                let j3 = spec_skip_ws(s, j2);
                if j3 >= s.len() || s[j3] != '=' {
                    Option::None
                } else {
                    let j4 = spec_skip_ws(s, j3 + 1);
                    if j4 >= s.len() || j4 < j {
                        Option::None
                    } else {
                        match spec_parse_value(s, j4) {
                            Option::None => Option::None,
                            Option::Some((v, j5)) => {
                                let j6 = spec_skip_ws(s, j5);
                                let j7 = if j6 < s.len() && s[j6] == ',' {
                                    spec_skip_ws(s, j6 + 1)
                                } else {
                                    j6
                                };
                                if j < j7 <= s.len() {
                                    spec_table_items(s, j7, acc.push(PairModel { key, value: v }))
                                } else {
                                    Option::None
                                }
                            },
                        }
                    }
                }
            },
        }
    }
}

/// The assignments from `i` to the end of the document, under the enclosing
/// table header `prefix`.
pub open spec fn spec_doc_items(
    s: Seq<char>,
    i: int,
    prefix: Seq<Seq<char>>,
    acc: Seq<AssignModel>,
) -> Option<Seq<AssignModel>>
    decreases s.len() - i,
{
    if i >= s.len() {
        Option::Some(acc)
    } else if s[i] == '[' {
        if i + 1 >= s.len() {
            Option::None
        } else {
            match spec_parse_dotted_key(s, i + 1) {
                Option::None => Option::None,
                Option::Some((path, j)) => {
                    let j2 = spec_skip_ws(s, j);
                    if j2 >= s.len() || s[j2] != ']' {
                        Option::None
                    } else {
                        let i2 = spec_skip_blank(s, j2 + 1, false);
                        if i < i2 <= s.len() {
                            spec_doc_items(s, i2, path, acc)
                        } else {
                            Option::None
                        }
                    }
                },
            }
        }
    } else {
        match spec_parse_dotted_key(s, i) {
            Option::None => Option::None,
            Option::Some((kp, j)) => {
                let j2 = spec_skip_ws(s, j);
                if j2 >= s.len() || s[j2] != '=' {
                    Option::None
                } else {
                    let j3 = spec_skip_ws(s, j2 + 1);
                    if j3 >= s.len() {
                        Option::None
                    } else {
                        match spec_parse_value(s, j3) {
                            Option::None => Option::None,
                            Option::Some((v, j4)) => {
                                let i2 = spec_skip_blank(s, j4, false);
                                if i < i2 <= s.len() {
                                    spec_doc_items(
                                        s,
                                        i2,
                                        prefix,
                                        acc.push(AssignModel { path: prefix + kp, value: v }),
                                    )
                                } else {
                                    Option::None
                                }
                            },
                        }
                    }
                }
            },
        }
    }
}

/// The whole document: its assignments, in order, with absolute key paths —
/// or nothing, when the text is not in the accepted shape.
pub open spec fn spec_parse_document(s: Seq<char>) -> Option<Seq<AssignModel>> {
    spec_doc_items(s, spec_skip_blank(s, 0, false), Seq::empty(), Seq::empty())
}

/// Skip spaces and tabs.
fn skip_ws(s: &str, i: usize) -> (r: usize)
    requires
        i <= s@.len(),
    ensures
        i <= r <= s@.len(),
        r == spec_skip_ws(s@, i as int),
{
    let n = s.unicode_len();
    let mut j: usize = i;
    while j < n
        invariant
            i <= j <= n,
            n == s@.len(),
            spec_skip_ws(s@, j as int) == spec_skip_ws(s@, i as int),
        decreases n - j,
    {
        let c = s.get_char(j);
        if c == ' ' || c == '\t' {
            proof {
                assert(spec_skip_ws(s@, j as int) == spec_skip_ws(s@, j + 1));
            }
            j = j + 1;
        } else {
            proof {
                assert(spec_skip_ws(s@, j as int) == j as int);
            }
            return j;
        }
    }
    proof {
        assert(spec_skip_ws(s@, j as int) == j as int);
    }
    j
}

/// Skip whitespace, newlines and `#` comments between items.
fn skip_blank(s: &str, i: usize) -> (r: usize)
    requires
        i <= s@.len(),
    ensures
        i <= r <= s@.len(),
        r == spec_skip_blank(s@, i as int, false),
{
    let n = s.unicode_len();
    let mut j: usize = i;
    while j < n
        invariant
            i <= j <= n,
            n == s@.len(),
            spec_skip_blank(s@, j as int, false) == spec_skip_blank(s@, i as int, false),
        decreases n - j,
    {
        let c = s.get_char(j);
        if c == ' ' || c == '\t' || c == '\n' || c == '\r' {
            proof {
                assert(spec_skip_blank(s@, j as int, false) == spec_skip_blank(s@, j + 1, false));
            }
            j = j + 1;
        } else if c == '#' {
            let ghost j0 = j;
            proof {
                assert(spec_skip_blank(s@, j as int, false) == spec_skip_blank(s@, j + 1, true));
            }
            j = j + 1;
            while j < n
                invariant
                    j0 < j <= n,
                    n == s@.len(),
                    spec_skip_blank(s@, j as int, true) == spec_skip_blank(s@, i as int, false),
                ensures
                    j0 < j <= n,
                    spec_skip_blank(s@, j as int, false) == spec_skip_blank(s@, i as int, false),
                decreases n - j,
            {
                if s.get_char(j) == '\n' {
                    proof {
                        assert(spec_skip_blank(s@, j as int, true) == spec_skip_blank(
                            s@,
                            j as int,
                            false,
                        ));
                    }
                    break ;
                }
                proof {
                    assert(spec_skip_blank(s@, j as int, true) == spec_skip_blank(s@, j + 1, true));
                }
                j = j + 1;
            }
            if j == n {
                proof {
                    assert(spec_skip_blank(s@, j as int, true) == j as int);
                    assert(spec_skip_blank(s@, j as int, false) == j as int);
                }
                return j;
            }
        } else {
            proof {
                assert(spec_skip_blank(s@, j as int, false) == j as int);
            }
            return j;
        }
    }
    proof {
        assert(spec_skip_blank(s@, j as int, false) == j as int);
    }
    j
}

/// A character a bare key may hold.
fn is_bare_key_char(c: char) -> (r: bool)
    ensures
        r == spec_is_bare_key_char(c),
{
    (c >= 'a' && c <= 'z') || (c >= 'A' && c <= 'Z') || (c >= '0' && c <= '9') || c == '_' || c
        == '-'
}

/// Read a bare key at `i`.
fn parse_bare_key(s: &str, i: usize) -> (r: Result<(String, usize), ConfigError>)
    requires
        i <= s@.len(),
    ensures
        r matches Ok(t) ==> i < t.1 <= s@.len(),
        r matches Ok(t) ==> spec_parse_bare_key(s@, i as int) == Option::Some(
            (t.0@, t.1 as int),
        ),
        r is Err ==> spec_parse_bare_key(s@, i as int) is None,
        r matches Err(e) ==> e is Malformed,
{
    let n = s.unicode_len();
    let mut j: usize = i;
    while j < n
        invariant
            i <= j <= n,
            n == s@.len(),
            spec_bare_key_end(s@, j as int) == spec_bare_key_end(s@, i as int),
        ensures
            i <= j <= n,
            spec_bare_key_end(s@, i as int) == j as int,
        decreases n - j,
    {
        if is_bare_key_char(s.get_char(j)) {
            proof {
                assert(spec_bare_key_end(s@, j as int) == spec_bare_key_end(s@, j + 1));
            }
            j = j + 1;
        } else {
            proof {
                assert(spec_bare_key_end(s@, j as int) == j as int);
            }
            break ;
        }
    }
    proof {
        assert(spec_bare_key_end(s@, j as int) == j as int);
    }
    if j == i {
        return Err(ConfigError::Malformed { position: i });
    }
    Ok((s.substring_char(i, j).to_owned(), j))
}

/// Read a quoted key or single-line basic string starting at the `"` at `i`;
/// the text runs to the next `"`.
fn parse_quoted(s: &str, i: usize) -> (r: Result<(String, usize), ConfigError>)
    requires
        i < s@.len(),
    ensures
        r matches Ok(t) ==> i < t.1 <= s@.len(),
        r matches Ok(t) ==> spec_parse_quoted(s@, i as int) == Option::Some((t.0@, t.1 as int)),
        r is Err ==> spec_parse_quoted(s@, i as int) is None,
        r matches Err(e) ==> e is Malformed,
{
    let n = s.unicode_len();
    let mut j: usize = i + 1;
    while j < n
        invariant
            i + 1 <= j <= n,
            n == s@.len(),
            spec_find_char(s@, j as int, '"', true) == spec_find_char(s@, i + 1, '"', true),
        decreases n - j,
    {
        let c = s.get_char(j);
        if c == '"' {
            proof {
                assert(spec_find_char(s@, j as int, '"', true) == Option::Some(j as int));
            }
            return Ok((s.substring_char(i + 1, j).to_owned(), j + 1));
        }
        if c == '\n' {
            proof {
                assert(spec_find_char(s@, j as int, '"', true) is None);
            }
            return Err(ConfigError::Malformed { position: j });
        }
        proof {
            assert(spec_find_char(s@, j as int, '"', true) == spec_find_char(
                s@,
                j + 1,
                '"',
                true,
            ));
        }
        j = j + 1;
    }
    proof {
        assert(spec_find_char(s@, j as int, '"', true) is None);
    }
    Err(ConfigError::Malformed { position: i })
}

/// Read a key: bare or quoted.
fn parse_key(s: &str, i: usize) -> (r: Result<(String, usize), ConfigError>)
    requires
        i < s@.len(),
    ensures
        r matches Ok(t) ==> i < t.1 <= s@.len(),
        r matches Ok(t) ==> spec_parse_key(s@, i as int) == Option::Some((t.0@, t.1 as int)),
        r is Err ==> spec_parse_key(s@, i as int) is None,
        r matches Err(e) ==> e is Malformed,
{
    if s.get_char(i) == '"' {
        parse_quoted(s, i)
    } else {
        parse_bare_key(s, i)
    }
}

/// Read a dotted key: keys separated by `.`, with spaces allowed around the
/// dots.
fn parse_dotted_key(s: &str, i: usize) -> (r: Result<(Vec<String>, usize), ConfigError>)
    requires
        i < s@.len(),
    ensures
        r matches Ok(t) ==> i < t.1 <= s@.len(),
        r matches Ok(t) ==> spec_parse_dotted_key(s@, i as int) == Option::Some(
            (t.0.deep_view(), t.1 as int),
        ),
        r is Err ==> spec_parse_dotted_key(s@, i as int) is None,
        r matches Err(e) ==> e is Malformed,
{
    let n = s.unicode_len();
    let mut parts: Vec<String> = Vec::new();
    let (first, mut j) = match parse_key(s, i) {
        Ok(t) => t,
        Err(e) => {
            return Err(e);
        },
    };
    parts.push(first);
    proof {
        assert(parts.deep_view() =~= seq![spec_parse_key(s@, i as int)->Some_0.0]);
    }
    loop
        invariant
            i < j <= n,
            n == s@.len(),
            spec_dotted_rest(s@, j as int, parts.deep_view()) == spec_parse_dotted_key(
                s@,
                i as int,
            ),
        ensures
            i < j <= n,
            spec_parse_dotted_key(s@, i as int) == Option::Some(
                (parts.deep_view(), j as int),
            ),
        decreases n - j,
    {
        let k = skip_ws(s, j);
        if k < n && s.get_char(k) == '.' {
            let k2 = skip_ws(s, k + 1);
            if k2 >= n {
                proof {
                    assert(spec_dotted_rest(s@, j as int, parts.deep_view()) is None);
                }
                return Err(ConfigError::Malformed { position: k2 });
            }
            match parse_key(s, k2) {
                Ok((part, k3)) => {
                    let ghost before = parts.deep_view();
                    parts.push(part);
                    proof {
                        assert(parts.deep_view() =~= before.push(
                            spec_parse_key(s@, k2 as int)->Some_0.0,
                        ));
                        assert(spec_dotted_rest(s@, j as int, before) == spec_dotted_rest(
                            s@,
                            k3 as int,
                            parts.deep_view(),
                        ));
                    }
                    j = k3;
                },
                Err(e) => {
                    proof {
                        assert(spec_dotted_rest(s@, j as int, parts.deep_view()) is None);
                    }
                    return Err(e);
                },
            }
        } else {
            proof {
                assert(spec_dotted_rest(s@, j as int, parts.deep_view()) == Option::Some(
                    (parts.deep_view(), j as int),
                ));
            }
            break ;
        }
    }
    Ok((parts, j))
}

/// Does a multi-line string delimiter (`"""`) stand at `i`?
fn triple_quote_at(s: &str, i: usize) -> (r: bool)
    requires
        i <= s@.len(),
    ensures
        r == spec_triple_at(s@, i as int),
        r ==> i + 2 < s@.len(),
{
    let n = s.unicode_len();
    n >= 3 && i < n - 2 && s.get_char(i) == '"' && s.get_char(i + 1) == '"' && s.get_char(i + 2)
        == '"'
}

/// Read a multi-line basic string starting at the `"""` at `i`. A newline
/// right after the opening delimiter is trimmed.
fn parse_multiline(s: &str, i: usize) -> (r: Result<(String, usize), ConfigError>)
    requires
        i + 2 < s@.len(),
    ensures
        r matches Ok(t) ==> i < t.1 <= s@.len(),
        r matches Ok(t) ==> spec_parse_multiline(s@, i as int) == Option::Some(
            (t.0@, t.1 as int),
        ),
        r is Err ==> spec_parse_multiline(s@, i as int) is None,
        r matches Err(e) ==> e is Malformed,
{
    let n = s.unicode_len();
    let mut start: usize = i + 3;
    if start < n && s.get_char(start) == '\n' {
        start = start + 1;
    }
    let mut j: usize = start;
    proof {
        assert(start as int == spec_multiline_start(s@, i as int));
    }
    while j < n
        invariant
            start <= j <= n,
            i + 3 <= start,
            n == s@.len(),
            start as int == spec_multiline_start(s@, i as int),
            spec_find_triple(s@, j as int) == spec_find_triple(s@, start as int),
        decreases n - j,
    {
        if triple_quote_at(s, j) {
            proof {
                assert(spec_find_triple(s@, j as int) == Option::Some(j as int));
            }
            return Ok((s.substring_char(start, j).to_owned(), j + 3));
        }
        proof {
            assert(spec_find_triple(s@, j as int) == spec_find_triple(s@, j + 1));
        }
        j = j + 1;
    }
    proof {
        assert(spec_find_triple(s@, j as int) is None);
    }
    Err(ConfigError::Malformed { position: i })
}

/// Read a literal string (single quotes) starting at the `'` at `i`.
fn parse_literal(s: &str, i: usize) -> (r: Result<(String, usize), ConfigError>)
    requires
        i < s@.len(),
    ensures
        r matches Ok(t) ==> i < t.1 <= s@.len(),
        r matches Ok(t) ==> spec_parse_literal(s@, i as int) == Option::Some((t.0@, t.1 as int)),
        r is Err ==> spec_parse_literal(s@, i as int) is None,
        r matches Err(e) ==> e is Malformed,
{
    let n = s.unicode_len();
    let mut j: usize = i + 1;
    while j < n
        invariant
            i + 1 <= j <= n,
            n == s@.len(),
            spec_find_char(s@, j as int, '\'', false) == spec_find_char(s@, i + 1, '\'', false),
        decreases n - j,
    {
        if s.get_char(j) == '\'' {
            proof {
                assert(spec_find_char(s@, j as int, '\'', false) == Option::Some(j as int));
            }
            return Ok((s.substring_char(i + 1, j).to_owned(), j + 1));
        }
        proof {
            assert(spec_find_char(s@, j as int, '\'', false) == spec_find_char(
                s@,
                j + 1,
                '\'',
                false,
            ));
        }
        j = j + 1;
    }
    proof {
        assert(spec_find_char(s@, j as int, '\'', false) is None);
    }
    Err(ConfigError::Malformed { position: i })
}

/// Read a bare scalar (a number, a date, `true`, `false`): its literal text
/// up to the next delimiter.
fn parse_scalar(s: &str, i: usize) -> (r: Result<(String, usize), ConfigError>)
    requires
        i < s@.len(),
    ensures
        r matches Ok(t) ==> i < t.1 <= s@.len(),
        r matches Ok(t) ==> spec_parse_scalar(s@, i as int) == Option::Some((t.0@, t.1 as int)),
        r is Err ==> spec_parse_scalar(s@, i as int) is None,
        r matches Err(e) ==> e is Malformed,
{
    let n = s.unicode_len();
    let mut j: usize = i;
    while j < n
        invariant
            i <= j <= n,
            n == s@.len(),
            spec_scalar_end(s@, j as int) == spec_scalar_end(s@, i as int),
        ensures
            i <= j <= n,
            spec_scalar_end(s@, i as int) == j as int,
        decreases n - j,
    {
        let c = s.get_char(j);
        if c == ',' || c == ']' || c == '}' || c == '\n' || c == '\r' || c == '#' || c == ' ' || c
            == '\t' {
            proof {
                assert(spec_scalar_end(s@, j as int) == j as int);
            }
            break ;
        }
        proof {
            assert(spec_scalar_end(s@, j as int) == spec_scalar_end(s@, j + 1));
        }
        j = j + 1;
    }
    if j == i {
        return Err(ConfigError::Malformed { position: i });
    }
    Ok((s.substring_char(i, j).to_owned(), j))
}

/// Read a value at `i`.
fn parse_value(s: &str, i: usize) -> (r: Result<(TomlValue, usize), ConfigError>)
    requires
        i < s@.len(),
    ensures
        r matches Ok(t) ==> i < t.1 <= s@.len(),
        r matches Ok(t) ==> spec_parse_value(s@, i as int) == Option::Some(
            (t.0.model(), t.1 as int),
        ),
        r is Err ==> spec_parse_value(s@, i as int) is None,
        r matches Err(e) ==> e is Malformed,
    decreases s@.len() - i, 1int,
{
    let n = s.unicode_len();
    let c = s.get_char(i);
    if c == '"' {
        if triple_quote_at(s, i) {
            match parse_multiline(s, i) {
                Ok((text, j)) => {
                    proof {
                        assert(TomlValue::Text(text).model() == ValueModel::Text(text@));
                    }
                    Ok((TomlValue::Text(text), j))
                },
                Err(e) => Err(e),
            }
        } else {
            match parse_quoted(s, i) {
                Ok((text, j)) => {
                    proof {
                        assert(TomlValue::Text(text).model() == ValueModel::Text(text@));
                    }
                    Ok((TomlValue::Text(text), j))
                },
                Err(e) => Err(e),
            }
        }
    } else if c == '\'' {
        match parse_literal(s, i) {
            Ok((text, j)) => {
                proof {
                    assert(TomlValue::Text(text).model() == ValueModel::Text(text@));
                }
                Ok((TomlValue::Text(text), j))
            },
            Err(e) => Err(e),
        }
    } else if c == '[' {
        parse_array_body(s, i + 1)
    } else if c == '{' {
        parse_table_body(s, i + 1)
    } else {
        match parse_scalar(s, i) {
            Ok((text, j)) => {
                if crate::text::str_eq(text.as_str(), "true") {
                    proof {
                        assert(TomlValue::Flag(true).model() == ValueModel::Flag(true));
                    }
                    Ok((TomlValue::Flag(true), j))
                } else if crate::text::str_eq(text.as_str(), "false") {
                    proof {
                        assert(TomlValue::Flag(false).model() == ValueModel::Flag(false));
                    }
                    Ok((TomlValue::Flag(false), j))
                } else {
                    proof {
                        assert(TomlValue::Text(text).model() == ValueModel::Text(text@));
                    }
                    Ok((TomlValue::Text(text), j))
                }
            },
            Err(e) => Err(e),
        }
    }
}

/// Read the elements of an array whose `[` stood at `i - 1`; elements may
/// span lines and a trailing comma is allowed.
fn parse_array_body(s: &str, i: usize) -> (r: Result<(TomlValue, usize), ConfigError>)
    requires
        i <= s@.len(),
    ensures
        r matches Ok(t) ==> i < t.1 <= s@.len(),
        r matches Ok(t) ==> spec_array_body(s@, i as int) == Option::Some(
            (t.0.model(), t.1 as int),
        ),
        r is Err ==> spec_array_body(s@, i as int) is None,
        r matches Err(e) ==> e is Malformed,
    decreases s@.len() - i, 2int,
{
    let n = s.unicode_len();
    let mut items: Vec<TomlValue> = Vec::new();
    let mut j: usize = skip_blank(s, i);
    let ghost j0 = j as int;
    proof {
        assert(seq_value_models(items@) =~= Seq::<ValueModel>::empty());
    }
    loop
        invariant_except_break
            spec_array_items(s@, j as int, seq_value_models(items@)) == spec_array_items(
                s@,
                j0,
                Seq::empty(),
            ),
        invariant
            i <= j <= n,
            n == s@.len(),
            spec_array_body(s@, i as int) == (match spec_array_items(s@, j0, Seq::empty()) {
                Option::None => Option::<(ValueModel, int)>::None,
                Option::Some((its, jj)) => Option::Some((ValueModel::Array(its), jj)),
            }),
        ensures
            i < j <= n,
            spec_array_items(s@, j0, Seq::empty()) == Option::Some(
                (seq_value_models(items@), j as int),
            ),
        decreases n - j,
    {
        if j >= n {
            proof {
                assert(spec_array_items(s@, j as int, seq_value_models(items@)) is None);
            }
            return Err(ConfigError::Malformed { position: j });
        }
        if s.get_char(j) == ']' {
            proof {
                assert(spec_array_items(s@, j as int, seq_value_models(items@)) == Option::Some(
                    (seq_value_models(items@), j + 1),
                ));
            }
            j = j + 1;
            break ;
        }
        match parse_value(s, j) {
            Ok((v, j2)) => {
                let ghost before = seq_value_models(items@);
                let ghost old_items = items@;
                let ghost vm = v.model();
                items.push(v);
                proof {
                    assert(items@.drop_last() =~= old_items);
                    assert(items@.last() == v);
                    assert(seq_value_models(items@) == seq_value_models(
                        items@.drop_last(),
                    ).push(items@.last().model()));
                    assert(seq_value_models(items@) =~= before.push(vm));
                }
                let mut j3 = skip_blank(s, j2);
                if j3 < n && s.get_char(j3) == ',' {
                    j3 = skip_blank(s, j3 + 1);
                }
                proof {
                    assert(spec_array_items(s@, j as int, before) == spec_array_items(
                        s@,
                        j3 as int,
                        before.push(vm),
                    ));
                }
                j = j3;
            },
            Err(e) => {
                proof {
                    assert(spec_array_items(s@, j as int, seq_value_models(items@)) is None);
                }
                return Err(e);
            },
        }
    }
    proof {
        assert(TomlValue::Array(items).model() == ValueModel::Array(seq_value_models(items@)));
    }
    Ok((TomlValue::Array(items), j))
}

/// Read the pairs of an inline table whose `{` stood at `i - 1`.
fn parse_table_body(s: &str, i: usize) -> (r: Result<(TomlValue, usize), ConfigError>)
    requires
        i <= s@.len(),
    ensures
        r matches Ok(t) ==> i < t.1 <= s@.len(),
        r matches Ok(t) ==> spec_table_body(s@, i as int) == Option::Some(
            (t.0.model(), t.1 as int),
        ),
        r is Err ==> spec_table_body(s@, i as int) is None,
        r matches Err(e) ==> e is Malformed,
    decreases s@.len() - i, 2int,
{
    let n = s.unicode_len();
    let mut pairs: Vec<TomlPair> = Vec::new();
    let mut j: usize = skip_ws(s, i);
    let ghost j0 = j as int;
    proof {
        assert(seq_pair_models(pairs@) =~= Seq::<PairModel>::empty());
    }
    loop
        invariant_except_break
            spec_table_items(s@, j as int, seq_pair_models(pairs@)) == spec_table_items(
                s@,
                j0,
                Seq::empty(),
            ),
        invariant
            i <= j <= n,
            n == s@.len(),
            spec_table_body(s@, i as int) == (match spec_table_items(s@, j0, Seq::empty()) {
                Option::None => Option::<(ValueModel, int)>::None,
                Option::Some((ps, jj)) => Option::Some((ValueModel::Table(ps), jj)),
            }),
        ensures
            i < j <= n,
            spec_table_items(s@, j0, Seq::empty()) == Option::Some(
                (seq_pair_models(pairs@), j as int),
            ),
        decreases n - j,
    {
        if j >= n {
            proof {
                assert(spec_table_items(s@, j as int, seq_pair_models(pairs@)) is None);
            }
            return Err(ConfigError::Malformed { position: j });
        }
        if s.get_char(j) == '}' {
            proof {
                assert(spec_table_items(s@, j as int, seq_pair_models(pairs@)) == Option::Some(
                    (seq_pair_models(pairs@), j + 1),
                ));
            }
            j = j + 1;
            break ;
        }
        let ghost entry_j = j as int;
        let (key, j2) = match parse_key(s, j) {
            Ok(t) => t,
            Err(e) => {
                proof {
                    assert(spec_table_items(s@, j as int, seq_pair_models(pairs@)) is None);
                }
                return Err(e);
            },
        };
        let j3 = skip_ws(s, j2);
        if j3 >= n || s.get_char(j3) != '=' {
            proof {
                assert(spec_table_items(s@, entry_j, seq_pair_models(pairs@)) is None);
            }
            return Err(ConfigError::Malformed { position: j3 });
        }
        let j4 = skip_ws(s, j3 + 1);
        if j4 >= n {
            proof {
                assert(spec_table_items(s@, entry_j, seq_pair_models(pairs@)) is None);
            }
            return Err(ConfigError::Malformed { position: j4 });
        }
        match parse_value(s, j4) {
            Ok((v, j5)) => {
                let ghost before = seq_pair_models(pairs@);
                let ghost old_pairs = pairs@;
                let ghost pm = PairModel { key: key@, value: v.model() };
                pairs.push(TomlPair { key, value: v });
                proof {
                    assert(pairs@.drop_last() =~= old_pairs);
                    assert(seq_pair_models(pairs@) == seq_pair_models(pairs@.drop_last()).push(
                        PairModel {
                            key: pairs@.last().key@,
                            value: pairs@.last().value.model(),
                        },
                    ));
                    assert(seq_pair_models(pairs@) =~= before.push(pm));
                }
                let mut j6 = skip_ws(s, j5);
                if j6 < n && s.get_char(j6) == ',' {
                    j6 = skip_ws(s, j6 + 1);
                }
                proof {
                    assert(spec_table_items(s@, entry_j, before) == spec_table_items(
                        s@,
                        j6 as int,
                        before.push(pm),
                    ));
                }
                j = j6;
            },
            Err(e) => {
                proof {
                    assert(spec_table_items(s@, entry_j, seq_pair_models(pairs@)) is None);
                }
                return Err(e);
            },
        }
    }
    proof {
        assert(TomlValue::Table(pairs).model() == ValueModel::Table(seq_pair_models(pairs@)));
    }
    Ok((TomlValue::Table(pairs), j))
}

/// Copy a key path and extend it with newly read parts.
fn join_path(prefix: &Vec<String>, tail: Vec<String>) -> (r: Vec<String>)
    ensures
        r.deep_view() == prefix.deep_view() + tail.deep_view(),
{
    let mut out: Vec<String> = Vec::new();
    let n = prefix.len();
    let mut i: usize = 0;
    while i < n
        invariant
            0 <= i <= n,
            n == prefix@.len(),
            out.deep_view() =~= prefix.deep_view().subrange(0, i as int),
        decreases n - i,
    {
        let ghost before = out.deep_view();
        out.push(prefix[i].clone());
        proof {
            assert(out.deep_view() =~= before.push(prefix.deep_view()[i as int]));
            assert(out.deep_view() =~= prefix.deep_view().subrange(0, i + 1));
        }
        i = i + 1;
    }
    proof {
        assert(out.deep_view() =~= prefix.deep_view());
    }
    let m = tail.len();
    let mut k: usize = 0;
    let mut tail = tail;
    let ghost tail_view = tail.deep_view();
    while k < m
        invariant
            0 <= k <= m,
            m == tail@.len(),
            tail.deep_view() == tail_view,
            out.deep_view() =~= prefix.deep_view() + tail_view.subrange(0, k as int),
        decreases m - k,
    {
        let ghost before = out.deep_view();
        out.push(tail[k].clone());
        proof {
            assert(out.deep_view() =~= before.push(tail_view[k as int]));
            assert(out.deep_view() =~= prefix.deep_view() + tail_view.subrange(0, k + 1));
        }
        k = k + 1;
    }
    proof {
        assert(tail_view.subrange(0, m as int) =~= tail_view);
    }
    out
}

/// Read the whole document: every assignment, in order, with its absolute key
/// path. Succeeds exactly when the text is in the accepted shape, and then
/// returns exactly the document `spec_parse_document` gives.
pub fn parse_document(s: &str) -> (r: Result<Vec<TomlAssign>, ConfigError>)
    ensures
        r is Ok <==> spec_parse_document(s@) is Some,
        r matches Ok(doc) ==> spec_parse_document(s@) == Option::Some(doc_models(doc@)),
        r matches Err(e) ==> e is Malformed,
{
    let n = s.unicode_len();
    let mut out: Vec<TomlAssign> = Vec::new();
    let mut prefix: Vec<String> = Vec::new();
    let mut i: usize = skip_blank(s, 0);
    proof {
        assert(doc_models(out@) =~= Seq::<AssignModel>::empty());
        assert(prefix.deep_view() =~= Seq::<Seq<char>>::empty());
    }
    while i < n
        invariant
            0 <= i <= n,
            n == s@.len(),
            spec_doc_items(s@, i as int, prefix.deep_view(), doc_models(out@))
                == spec_parse_document(s@),
        decreases n - i,
    {
        if s.get_char(i) == '[' {
            if i + 1 >= n {
                proof {
                    assert(spec_doc_items(s@, i as int, prefix.deep_view(), doc_models(out@))
                        is None);
                }
                return Err(ConfigError::Malformed { position: i });
            }
            let (path, j) = match parse_dotted_key(s, i + 1) {
                Ok(t) => t,
                Err(e) => {
                    proof {
                        assert(spec_doc_items(s@, i as int, prefix.deep_view(), doc_models(out@))
                            is None);
                    }
                    return Err(e);
                },
            };
            let j2 = skip_ws(s, j);
            if j2 >= n || s.get_char(j2) != ']' {
                proof {
                    assert(spec_doc_items(s@, i as int, prefix.deep_view(), doc_models(out@))
                        is None);
                }
                return Err(ConfigError::Malformed { position: j2 });
            }
            let i2 = skip_blank(s, j2 + 1);
            proof {
                assert(spec_doc_items(s@, i as int, prefix.deep_view(), doc_models(out@))
                    == spec_doc_items(s@, i2 as int, path.deep_view(), doc_models(out@)));
            }
            prefix = path;
            i = i2;
        } else {
            let (key_path, j) = match parse_dotted_key(s, i) {
                Ok(t) => t,
                Err(e) => {
                    proof {
                        assert(spec_doc_items(s@, i as int, prefix.deep_view(), doc_models(out@))
                            is None);
                    }
                    return Err(e);
                },
            };
            let j2 = skip_ws(s, j);
            if j2 >= n || s.get_char(j2) != '=' {
                proof {
                    assert(spec_doc_items(s@, i as int, prefix.deep_view(), doc_models(out@))
                        is None);
                }
                return Err(ConfigError::Malformed { position: j2 });
            }
            let j3 = skip_ws(s, j2 + 1);
            if j3 >= n {
                proof {
                    assert(spec_doc_items(s@, i as int, prefix.deep_view(), doc_models(out@))
                        is None);
                }
                return Err(ConfigError::Malformed { position: j3 });
            }
            let (value, j4) = match parse_value(s, j3) {
                Ok(t) => t,
                Err(e) => {
                    proof {
                        assert(spec_doc_items(s@, i as int, prefix.deep_view(), doc_models(out@))
                            is None);
                    }
                    return Err(e);
                },
            };
            let path = join_path(&prefix, key_path);
            let ghost before = doc_models(out@);
            let ghost am = AssignModel {
                path: prefix.deep_view() + key_path.deep_view(),
                value: value.model(),
            };
            let i2 = skip_blank(s, j4);
            proof {
                assert(spec_doc_items(s@, i as int, prefix.deep_view(), before) == spec_doc_items(
                    s@,
                    i2 as int,
                    prefix.deep_view(),
                    before.push(am),
                ));
            }
            let assign = TomlAssign { path, value };
            proof {
                assert(assign.model() == am);
            }
            out.push(assign);
            proof {
                assert(doc_models(out@) =~= before.push(am));
            }
            i = i2;
        }
    }
    proof {
        assert(spec_doc_items(s@, i as int, prefix.deep_view(), doc_models(out@)) == Option::Some(
            doc_models(out@),
        ));
    }
    Ok(out)
}

} // verus!
