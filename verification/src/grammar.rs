//! The grammar, as functions on sequences of tokens: what the parser
//! returns for every sequence, and how a definition merges into one that
//! exists already.
use crate::error::{basic_error, detailed_error, ErrorView};
use crate::omap::{
    last_value, lemma_last_value_unique, lemma_put_all_lookup, lookup, put, put_all, put_each,
    unique_keys,
};
use crate::text::decimal;
use crate::tokeniser::{debug_text, TokValView, TokenView};
use crate::types::{EntriesView, PropsView, StructView, ValueView};
use vstd::prelude::*;

verus! {

/// The token at `pos`.
pub open spec fn tok_at(toks: Seq<TokenView>, pos: nat) -> Option<TokenView> {
    if pos < toks.len() {
        Some(toks[pos as int])
    } else {
        None
    }
}

/// Whether a name stands at `pos`.
pub open spec fn names_at(toks: Seq<TokenView>, pos: nat) -> bool {
    tok_at(toks, pos) matches Some(t) && t.val is Name
}

/// Whether a delimiter that opens a structure stands at `pos`.
pub open spec fn opens_at(toks: Seq<TokenView>, pos: nat) -> bool {
    tok_at(toks, pos) matches Some(t) && (t.val is LBrace || t.val is LBrack || t.val is LBracePct)
}

/// Whether a `Break` stands at `pos`.
pub open spec fn break_at(toks: Seq<TokenView>, pos: nat) -> bool {
    tok_at(toks, pos) matches Some(t) && t.val is Break
}

/// The number of tokens from `pos` on.
pub open spec fn remaining(toks: Seq<TokenView>, pos: nat) -> nat {
    if pos <= toks.len() {
        (toks.len() - pos) as nat
    } else {
        0
    }
}

/// The end of the tokens where one more was needed.
pub open spec fn eof(code: u8) -> ErrorView {
    basic_error(code, "Unexpected End-of-file"@)
}

/// A branch that no sequence of tokens reaches.
pub open spec fn unreachable() -> ErrorView {
    basic_error(1, "Internal Error: Reached the unreachable!"@)
}

/// A production that was entered on a token that is no name.
pub open spec fn not_a_name() -> ErrorView {
    basic_error(1, "Internal Parser Error: TokVal was not Name"@)
}

/// A production that the grammar knows and the parser does not read yet.
pub open spec fn unimplemented() -> ErrorView {
    basic_error(1, "Internal Error: Unimplemented"@)
}

/// An error at the current token; at the end of the tokens, the end is
/// the error.
pub open spec fn error_at(cur: Option<TokenView>, code: u8, msg: Seq<char>, hint: Seq<char>) -> ErrorView {
    match cur {
        Some(t) => detailed_error(code, msg, t, hint),
        None => eof(154),
    }
}

/// The kinds of token that the parser asks for by name.
#[derive(Clone, Copy, Debug)]
pub enum Gate {
    Name,
    Equals,
    LBrace,
    RBrace,
    LBrack,
    RBrack,
    LBracePct,
    RBracePct,
}

/// Whether `gate` admits a token of value `v`.
pub open spec fn admits(gate: Gate, v: TokValView) -> bool {
    match gate {
        Gate::Name => v is Name,
        Gate::Equals => v is Equals,
        Gate::LBrace => v is LBrace,
        Gate::RBrace => v is RBrace,
        Gate::LBrack => v is LBrack,
        Gate::RBrack => v is RBrack,
        Gate::LBracePct => v is LBracePct,
        Gate::RBracePct => v is RBracePct,
    }
}

/// The token at `pos`, which `gate` must admit; `exp` says in the
/// error what was expected.
pub open spec fn expect(toks: Seq<TokenView>, pos: nat, gate: Gate, exp: Seq<char>) -> Result<
    TokenView,
    ErrorView,
> {
    match tok_at(toks, pos) {
        Some(t) => if admits(gate, t.val) {
            Ok(t)
        } else {
            Err(detailed_error(150, "Expected "@ + exp, t, "Found "@ + debug_text(t)))
        },
        None => Err(basic_error(151, "Expected "@ + exp + " but found End-of-File"@)),
    }
}

/// The name under which the `n`-th entry is filed when it has none.
pub open spec fn anon_name(n: nat) -> Seq<char> {
    "#anon"@ + decimal(n)
}

/// An object without entries and properties.
pub open spec fn empty_object() -> StructView {
    StructView::Object { entries: Seq::empty(), props: Seq::empty() }
}

/// A table without entries.
pub open spec fn empty_table() -> StructView {
    StructView::Table { entries: Seq::empty() }
}

/// A map without properties.
pub open spec fn empty_mapping() -> StructView {
    StructView::Mapping { props: Seq::empty() }
}

/// The entries of a structure that can hold entries.
pub open spec fn entries_of(s: StructView) -> Option<EntriesView> {
    match s {
        StructView::Object { entries, props } => Some(entries),
        StructView::Table { entries } => Some(entries),
        StructView::Mapping { props } => None,
    }
}

/// `s` with `e` for its entries.
pub open spec fn with_entries(s: StructView, e: EntriesView) -> StructView {
    match s {
        StructView::Object { entries, props } => StructView::Object { entries: e, props },
        StructView::Table { entries } => StructView::Table { entries: e },
        StructView::Mapping { props } => s,
    }
}

/// The properties of a structure that can hold properties.
pub open spec fn props_of(s: StructView) -> Option<PropsView> {
    match s {
        StructView::Object { entries, props } => Some(props),
        StructView::Table { entries } => None,
        StructView::Mapping { props } => Some(props),
    }
}

/// The name of a structure's kind, as the errors write it.
pub open spec fn kind_name(s: StructView) -> Seq<char> {
    match s {
        StructView::Object { .. } => "Object"@,
        StructView::Table { .. } => "Table"@,
        StructView::Mapping { .. } => "Map"@,
    }
}

/// The code of the error that refuses a further definition of `s`.
pub open spec fn kind_code(s: StructView) -> u8 {
    match s {
        StructView::Object { .. } => 161,
        StructView::Table { .. } => 160,
        StructView::Mapping { .. } => 159,
    }
}

/// The hint of the error that refuses a further definition of `s`.
pub open spec fn kind_hint(s: StructView) -> Seq<char> {
    match s {
        StructView::Object { .. } => "Make this entry an Object"@,
        StructView::Table { .. } => "Make this entry a Table"@,
        StructView::Mapping { .. } => "Make this entry a Map"@,
    }
}

/// Whether two structures are of one kind.
pub open spec fn same_kind(a: StructView, b: StructView) -> bool {
    match a {
        StructView::Object { .. } => b is Object,
        StructView::Table { .. } => b is Table,
        StructView::Mapping { .. } => b is Mapping,
    }
}

/// The error of a second definition that has another kind than the
/// first, or that meets a map: it names the kind of what exists.
pub open spec fn already_defined(ex: StructView, name: Seq<char>, cur: Option<TokenView>) -> ErrorView {
    error_at(
        cur,
        kind_code(ex),
        "Entry "@ + name + " already defined as "@ + kind_name(ex),
        kind_hint(ex),
    )
}

/// The error of a declaration that adds nothing to what exists.
pub open spec fn redefined(name: Seq<char>, cur: Option<TokenView>) -> ErrorView {
    error_at(cur, 162, "Entry "@ + name + " redefined with no new data"@, "Remove this redefinition"@)
}

/// The structure `ex`, defined under `name`, after a further definition
/// `new` of the same name. `cur` is the token at which an error is
/// reported.
pub open spec fn merge(ex: StructView, name: Seq<char>, new: StructView, cur: Option<TokenView>) -> Result<
    StructView,
    ErrorView,
>
    decreases new, 0nat,
{
    match ex {
        StructView::Object { entries: ex_entries, props: ex_props } => match new {
            StructView::Object { entries: new_entries, props: new_props } => match merge_entries(
                ex_entries,
                new_entries,
                0,
                cur,
            ) {
                Ok(entries) => Ok(StructView::Object { entries, props: put_all(ex_props, new_props) }),
                Err(e) => Err(e),
            },
            _ => Err(already_defined(ex, name, cur)),
        },
        StructView::Table { entries: ex_entries } => match new {
            StructView::Table { entries: new_entries } => match merge_entries(
                ex_entries,
                new_entries,
                0,
                cur,
            ) {
                Ok(entries) => Ok(StructView::Table { entries }),
                Err(e) => Err(e),
            },
            _ => Err(already_defined(ex, name, cur)),
        },
        StructView::Mapping { .. } => Err(already_defined(ex, name, cur)),
    }
}

/// The entries `ex` after the entries of `new` from the `i`-th on have
/// been merged into them, in order: a name that `ex` defines is merged,
/// a name that `ex` knows is not declared again, and every other name
/// is inserted.
pub open spec fn merge_entries(ex: EntriesView, new: EntriesView, i: nat, cur: Option<TokenView>) -> Result<
    EntriesView,
    ErrorView,
>
    decreases new, new.len() - i,
{
    if i >= new.len() {
        Ok(ex)
    } else {
        let k = new[i as int].0;
        match new[i as int].1 {
            Some(incoming) => match lookup(ex, k) {
                Some(Some(extant)) => match merge(extant, k, incoming, cur) {
                    Ok(merged) => merge_entries(put(ex, k, Some(merged)), new, i + 1, cur),
                    Err(e) => Err(e),
                },
                _ => merge_entries(put(ex, k, Some(incoming)), new, i + 1, cur),
            },
            None => match lookup(ex, k) {
                Some(_) => Err(redefined(k, cur)),
                None => merge_entries(put(ex, k, None), new, i + 1, cur),
            },
        }
    }
}

/// What a merge that fails leaves of `ex`: a mismatch of kind leaves it
/// as it was; a failure further in leaves what was merged before it.
pub open spec fn merge_left(
    ex: StructView,
    name: Seq<char>,
    new: StructView,
    cur: Option<TokenView>,
) -> StructView
    decreases new, 0nat,
{
    match ex {
        StructView::Object { entries: ex_entries, props: ex_props } => match new {
            StructView::Object { entries: new_entries, props: new_props } => StructView::Object {
                entries: merge_entries_left(ex_entries, new_entries, 0, cur),
                props: put_all(ex_props, new_props),
            },
            _ => ex,
        },
        StructView::Table { entries: ex_entries } => match new {
            StructView::Table { entries: new_entries } => StructView::Table {
                entries: merge_entries_left(ex_entries, new_entries, 0, cur),
            },
            _ => ex,
        },
        StructView::Mapping { .. } => ex,
    }
}

/// What a merge of entries that fails leaves of `ex`: the entries before
/// the one that fails are merged, and the one that fails holds what its
/// own merge leaves.
pub open spec fn merge_entries_left(
    ex: EntriesView,
    new: EntriesView,
    i: nat,
    cur: Option<TokenView>,
) -> EntriesView
    decreases new, new.len() - i,
{
    if i >= new.len() {
        ex
    } else {
        let k = new[i as int].0;
        match new[i as int].1 {
            Some(incoming) => match lookup(ex, k) {
                Some(Some(extant)) => match merge(extant, k, incoming, cur) {
                    Ok(merged) => merge_entries_left(put(ex, k, Some(merged)), new, i + 1, cur),
                    Err(e) => put(ex, k, Some(merge_left(extant, k, incoming, cur))),
                },
                _ => merge_entries_left(put(ex, k, Some(incoming)), new, i + 1, cur),
            },
            None => match lookup(ex, k) {
                Some(_) => ex,
                None => merge_entries_left(put(ex, k, None), new, i + 1, cur),
            },
        }
    }
}

/// The entries after the definition of `name` as `st`: merged into a
/// structure that the name holds, inserted otherwise.
pub open spec fn define(
    entries: EntriesView,
    name: Seq<char>,
    st: StructView,
    cur: Option<TokenView>,
) -> Result<EntriesView, ErrorView> {
    match lookup(entries, name) {
        Some(Some(extant)) => match merge(extant, name, st, cur) {
            Ok(merged) => Ok(put(entries, name, Some(merged))),
            Err(e) => Err(e),
        },
        _ => Ok(put(entries, name, Some(st))),
    }
}

/// The entries after the definition of each of `names`, from the `i`-th
/// on, as `st`.
pub open spec fn define_each(
    entries: EntriesView,
    names: Seq<Seq<char>>,
    i: nat,
    st: StructView,
    cur: Option<TokenView>,
) -> Result<EntriesView, ErrorView>
    decreases names.len() - i,
{
    if i >= names.len() {
        Ok(entries)
    } else {
        match define(entries, names[i as int], st, cur) {
            Ok(e) => define_each(e, names, i + 1, st, cur),
            Err(e) => Err(e),
        }
    }
}

/// What a definition that fails leaves of the entries: the name holds
/// what the failed merge leaves of its structure.
pub open spec fn define_left(
    entries: EntriesView,
    name: Seq<char>,
    st: StructView,
    cur: Option<TokenView>,
) -> EntriesView {
    match lookup(entries, name) {
        Some(Some(extant)) => put(entries, name, Some(merge_left(extant, name, st, cur))),
        _ => entries,
    }
}

/// What a definition under several names that fails leaves of the
/// entries: the names before the one that fails are defined.
pub open spec fn define_each_left(
    entries: EntriesView,
    names: Seq<Seq<char>>,
    i: nat,
    st: StructView,
    cur: Option<TokenView>,
) -> EntriesView
    decreases names.len() - i,
{
    if i >= names.len() {
        entries
    } else {
        match define(entries, names[i as int], st, cur) {
            Ok(e) => define_each_left(e, names, i + 1, st, cur),
            Err(e) => define_left(entries, names[i as int], st, cur),
        }
    }
}

/// A merge that fails on the kinds leaves the structure as it was.
pub proof fn lemma_mismatch_leaves(ex: StructView, name: Seq<char>, new: StructView, cur: Option<TokenView>)
    requires
        !same_kind(ex, new) || ex is Mapping,
    ensures
        merge_left(ex, name, new, cur) == ex,
{
}

/// A definition that fails on the kinds leaves the entries as they were.
pub proof fn lemma_conflict_leaves(
    entries: EntriesView,
    name: Seq<char>,
    st: StructView,
    cur: Option<TokenView>,
)
    requires
        lookup(entries, name) matches Some(Some(ex)) && (!same_kind(ex, st) || ex is Mapping),
    ensures
        define_left(entries, name, st, cur) == entries,
{
    crate::omap::lemma_put_same(entries, name);
}

/// A name that holds a structure cannot be defined again as a structure
/// of another kind, and a name that holds a map cannot be defined again
/// at all: the merge fails. Where the parser stands on a token, the
/// error is reported there, and its code and message name the kind of
/// the structure that exists.
pub proof fn lemma_redefinition_fails(
    ex: StructView,
    name: Seq<char>,
    new: StructView,
    cur: Option<TokenView>,
)
    requires
        !same_kind(ex, new) || ex is Mapping,
    ensures
        merge(ex, name, new, cur) == Err::<StructView, ErrorView>(already_defined(ex, name, cur)),
        cur matches Some(t) ==> already_defined(ex, name, cur) == detailed_error(
            kind_code(ex),
            "Entry "@ + name + " already defined as "@ + kind_name(ex),
            t,
            kind_hint(ex),
        ),
{
}

/// The same for a definition that the parser reads: where `name` holds
/// a structure of another kind than `st`, or a map, the definition is
/// the error that names the kind of what the name holds.
pub proof fn lemma_define_conflict(
    entries: EntriesView,
    name: Seq<char>,
    st: StructView,
    cur: Option<TokenView>,
)
    requires
        lookup(entries, name) matches Some(Some(ex)) && (!same_kind(ex, st) || ex is Mapping),
    ensures
        define(entries, name, st, cur) == Err::<EntriesView, ErrorView>(
            already_defined(lookup(entries, name)->Some_0->Some_0, name, cur),
        ),
{
    lemma_redefinition_fails(lookup(entries, name)->Some_0->Some_0, name, st, cur);
}

/// The properties of two merged objects: every name that the incoming
/// object binds holds the incoming value, the last one where the name
/// occurs more than once, and every other name holds what it held.
pub proof fn lemma_merge_last_write_wins(
    ex: StructView,
    name: Seq<char>,
    new: StructView,
    cur: Option<TokenView>,
    k: Seq<char>,
)
    requires
        ex is Object,
        new is Object,
        merge(ex, name, new, cur) is Ok,
    ensures
        merge(ex, name, new, cur)->Ok_0 is Object,
        lookup(merge(ex, name, new, cur)->Ok_0->Object_props, k) == match last_value(
            new->Object_props,
            k,
        ) {
            Some(v) => Some(v),
            None => lookup(ex->Object_props, k),
        },
        unique_keys(new->Object_props) ==> last_value(new->Object_props, k) == lookup(
            new->Object_props,
            k,
        ),
{
    lemma_put_all_lookup(ex->Object_props, new->Object_props, k);
    if unique_keys(new->Object_props) {
        lemma_last_value_unique(new->Object_props, k);
    }
}

/// The result `r` of a production that began at `pos`, where it has
/// read at least one token; no production reads none (see
/// `lemma_productions_advance`).
pub open spec fn moved<T>(pos: nat, r: Result<(T, nat), ErrorView>) -> Result<(T, nat), ErrorView> {
    match r {
        Ok((v, p)) => if p > pos {
            r
        } else {
            Err(unreachable())
        },
        Err(e) => r,
    }
}

/// `r` is the value `v` and the position `p`.
pub open spec fn yields<T>(r: Result<(T, nat), ErrorView>, v: T, p: nat) -> bool {
    r == Ok::<(T, nat), ErrorView>((v, p))
}

/// `r` is the error `e`.
pub open spec fn fails<T>(r: Result<T, ErrorView>, e: ErrorView) -> bool {
    r == Err::<T, ErrorView>(e)
}

/// A scalar value that begins at `pos`, and the position after it.
pub open spec fn parse_val(toks: Seq<TokenView>, pos: nat) -> Result<(ValueView, nat), ErrorView>
    decreases remaining(toks, pos), 0nat,
{
    match tok_at(toks, pos) {
        None => Err(eof(154)),
        Some(tok) => match tok.val {
            TokValView::Name(name) => Ok((ValueView::Key(name), pos + 1)),
            TokValView::Dollar => match expect(toks, pos + 1, Gate::Name, "name"@) {
                Ok(t) => match t.val {
                    TokValView::Name(name) => Ok((ValueView::Var(name), pos + 2)),
                    _ => Err(unreachable()),
                },
                Err(e) => Err(e),
            },
            TokValView::At => match expect(toks, pos + 1, Gate::Name, "name"@) {
                Ok(t) => match t.val {
                    TokValView::Name(name) => Ok((ValueView::Foreign(name), pos + 2)),
                    _ => Err(unreachable()),
                },
                Err(e) => Err(e),
            },
            TokValView::String(s) => Ok((ValueView::Str(s), pos + 1)),
            TokValView::Integer(i) => Ok((ValueView::Int(i), pos + 1)),
            TokValView::Float(f) => Ok((ValueView::Float(f), pos + 1)),
            TokValView::Boolean(b) => Ok((ValueView::Bool(b), pos + 1)),
            TokValView::LParen => parse_tuple(toks, pos + 1, Seq::empty()),
            _ => Err(detailed_error(158, "Expected Value"@, tok, "Make this a value"@)),
        },
    }
}

/// The rest of a tuple whose items so far are `acc`: a value, then `,`
/// and more, or `)`.
pub open spec fn parse_tuple(toks: Seq<TokenView>, pos: nat, acc: Seq<ValueView>) -> Result<
    (ValueView, nat),
    ErrorView,
>
    decreases remaining(toks, pos), 1nat,
{
    match moved(pos, parse_val(toks, pos)) {
        Ok((v, p)) => match tok_at(toks, p) {
            None => Err(eof(154)),
            Some(tok) => match tok.val {
                TokValView::RParen => Ok((ValueView::Tuple(acc.push(v)), p + 1)),
                TokValView::Comma => parse_tuple(toks, p + 1, acc.push(v)),
                _ => Err(
                    detailed_error(164, "Invalid syntax inside tuple"@, tok, "Expected ',' or ')'"@),
                ),
            },
        },
        Err(e) => Err(e),
    }
}

/// The right-hand side of a binding.
pub enum RValueView {
    Value(ValueView),
    Struct(StructView),
}

/// The names of a binding `a, b, c =` from `pos` on, after `acc`, and
/// the position of the `=`.
pub open spec fn binding_names(toks: Seq<TokenView>, pos: nat, acc: Seq<Seq<char>>) -> Result<
    (Seq<Seq<char>>, nat),
    ErrorView,
>
    decreases remaining(toks, pos),
{
    match expect(toks, pos, Gate::Name, "name"@) {
        Ok(t) => match t.val {
            TokValView::Name(name) => match tok_at(toks, pos + 1) {
                None => Err(eof(154)),
                Some(tok) => match tok.val {
                    TokValView::Equals => Ok((acc.push(name), pos + 1)),
                    TokValView::Comma => binding_names(toks, pos + 2, acc.push(name)),
                    _ => Err(
                        detailed_error(163, "Expected '=' or ','"@, tok, "Could not parse this token"@),
                    ),
                },
            },
            _ => Err(unreachable()),
        },
        Err(e) => Err(e),
    }
}

/// The names of a compound entry `a + b + c` from `pos` on, after
/// `acc`, and the position after the last of them.
pub open spec fn compound_names(toks: Seq<TokenView>, pos: nat, acc: Seq<Seq<char>>) -> Result<
    (Seq<Seq<char>>, nat),
    ErrorView,
>
    decreases remaining(toks, pos),
{
    match expect(toks, pos, Gate::Name, "name"@) {
        Ok(t) => match t.val {
            TokValView::Name(name) => match tok_at(toks, pos + 1) {
                None => Err(eof(154)),
                Some(tok) => if tok.val is Plus {
                    compound_names(toks, pos + 2, acc.push(name))
                } else {
                    Ok((acc.push(name), pos + 1))
                },
            },
            _ => Err(unreachable()),
        },
        Err(e) => Err(e),
    }
}

/// The error of an entry in a map.
pub open spec fn entry_in_map(cur: Option<TokenView>) -> ErrorView {
    error_at(cur, 156, "Maps cannot contain Entries"@, "Remove this entry"@)
}

/// The error of a binding in a table, at its `=`.
pub open spec fn binding_in_table(eq: TokenView) -> ErrorView {
    detailed_error(157, "Tables cannot contain Bindings"@, eq, "Remove this entry"@)
}

/// `strct` after the binding of `names` to the right-hand side `rv`;
/// `eq` is the `=` and `first` the first token after it.
pub open spec fn bind(
    strct: StructView,
    names: Seq<Seq<char>>,
    rv: RValueView,
    eq: TokenView,
    first: TokenView,
) -> Result<StructView, ErrorView> {
    match rv {
        RValueView::Value(val) => match strct {
            StructView::Object { entries, props } => Ok(
                StructView::Object { entries, props: put_each(props, names, val) },
            ),
            StructView::Mapping { props } => Ok(
                StructView::Mapping { props: put_each(props, names, val) },
            ),
            StructView::Table { entries } => Err(binding_in_table(eq)),
        },
        RValueView::Struct(st) => match strct {
            StructView::Object { entries, props } => {
                let key = anon_name(entries.len());
                Ok(
                    StructView::Object {
                        entries: put(entries, key, Some(st)),
                        props: put_each(props, names, ValueView::Key(key)),
                    },
                )
            },
            StructView::Mapping { props } => Err(entry_in_map(Some(first))),
            StructView::Table { entries } => Err(binding_in_table(eq)),
        },
    }
}

/// A structure literal that begins at `pos`, and the position after it.
pub open spec fn parse_struct(toks: Seq<TokenView>, pos: nat) -> Result<(StructView, nat), ErrorView>
    decreases remaining(toks, pos), 1nat,
{
    match tok_at(toks, pos) {
        None => Err(eof(154)),
        Some(tok) => match tok.val {
            TokValView::LBrace => parse_obj_struct(toks, pos),
            TokValView::LBrack => parse_tbl_struct(toks, pos),
            TokValView::LBracePct => parse_map_struct(toks, pos),
            _ => Err(expected_struct(tok)),
        },
    }
}

/// An object `{ … }` that begins at `pos`.
pub open spec fn parse_obj_struct(toks: Seq<TokenView>, pos: nat) -> Result<
    (StructView, nat),
    ErrorView,
>
    decreases remaining(toks, pos), 0nat,
{
    match expect(toks, pos, Gate::LBrace, "'{'"@) {
        Ok(_) => match parse_inner(toks, pos + 1, empty_object()) {
            Ok((st, p)) => match expect(toks, p, Gate::RBrace, "'}'"@) {
                Ok(_) => Ok((st, p + 1)),
                Err(e) => Err(e),
            },
            Err(e) => Err(e),
        },
        Err(e) => Err(e),
    }
}

/// A table `[ … ]` that begins at `pos`.
pub open spec fn parse_tbl_struct(toks: Seq<TokenView>, pos: nat) -> Result<
    (StructView, nat),
    ErrorView,
>
    decreases remaining(toks, pos), 0nat,
{
    match expect(toks, pos, Gate::LBrack, "'['"@) {
        Ok(_) => match parse_inner(toks, pos + 1, empty_table()) {
            Ok((st, p)) => match expect(toks, p, Gate::RBrack, "']'"@) {
                Ok(_) => Ok((st, p + 1)),
                Err(e) => Err(e),
            },
            Err(e) => Err(e),
        },
        Err(e) => Err(e),
    }
}

/// A map `{% … %}` that begins at `pos`.
pub open spec fn parse_map_struct(toks: Seq<TokenView>, pos: nat) -> Result<
    (StructView, nat),
    ErrorView,
>
    decreases remaining(toks, pos), 0nat,
{
    match expect(toks, pos, Gate::LBracePct, "'{%'"@) {
        Ok(_) => match parse_inner(toks, pos + 1, empty_mapping()) {
            Ok((st, p)) => match expect(toks, p, Gate::RBracePct, "'%}'"@) {
                Ok(_) => Ok((st, p + 1)),
                Err(e) => Err(e),
            },
            Err(e) => Err(e),
        },
        Err(e) => Err(e),
    }
}

/// The right-hand side of a binding that begins at `pos`: a structure
/// literal where an opening delimiter stands, a scalar value otherwise.
pub open spec fn parse_rval(toks: Seq<TokenView>, pos: nat) -> Result<(RValueView, nat), ErrorView>
    decreases remaining(toks, pos), 2nat,
{
    match tok_at(toks, pos) {
        None => Err(eof(154)),
        Some(tok) => if tok.val is LBrace || tok.val is LBrack || tok.val is LBracePct {
            match parse_struct(toks, pos) {
                Ok((st, p)) => Ok((RValueView::Struct(st), p)),
                Err(e) => Err(e),
            }
        } else {
            match parse_val(toks, pos) {
                Ok((v, p)) => Ok((RValueView::Value(v), p)),
                Err(e) => Err(e),
            }
        },
    }
}

/// `= rhs` from `pos` on, bound to `names` in `strct`.
pub open spec fn parse_rhs(
    toks: Seq<TokenView>,
    pos: nat,
    strct: StructView,
    names: Seq<Seq<char>>,
) -> Result<(StructView, nat), ErrorView>
    decreases remaining(toks, pos), 3nat,
{
    match expect(toks, pos, Gate::Equals, "'='"@) {
        Ok(eq) => match tok_at(toks, pos + 1) {
            None => Err(eof(154)),
            Some(first) => match parse_rval(toks, pos + 1) {
                Ok((rv, p)) => match bind(strct, names, rv, eq, first) {
                    Ok(s) => Ok((s, p)),
                    Err(e) => Err(e),
                },
                Err(e) => Err(e),
            },
        },
        Err(e) => Err(e),
    }
}

/// `name = rhs`.
pub open spec fn parse_single_binding(toks: Seq<TokenView>, pos: nat, strct: StructView) -> Result<
    (StructView, nat),
    ErrorView,
>
    decreases remaining(toks, pos), 4nat,
{
    match tok_at(toks, pos) {
        None => Err(eof(154)),
        Some(tok) => match tok.val {
            TokValView::Name(name) => parse_rhs(toks, pos + 1, strct, seq![name]),
            _ => Err(not_a_name()),
        },
    }
}

/// `a, b = rhs`.
pub open spec fn parse_multiple_binding(toks: Seq<TokenView>, pos: nat, strct: StructView) -> Result<
    (StructView, nat),
    ErrorView,
>
    decreases remaining(toks, pos), 4nat,
{
    match moved(pos, binding_names(toks, pos, Seq::empty())) {
        Ok((names, p)) => parse_rhs(toks, p, strct, names),
        Err(e) => Err(e),
    }
}

/// `name { … }`: the structure is defined under the name.
pub open spec fn parse_single_entry(toks: Seq<TokenView>, pos: nat, strct: StructView) -> Result<
    (StructView, nat),
    ErrorView,
>
    decreases remaining(toks, pos), 4nat,
{
    match entries_of(strct) {
        Some(entries) => match tok_at(toks, pos) {
            None => Err(eof(154)),
            Some(tok) => match tok.val {
                TokValView::Name(name) => match parse_struct(toks, pos + 1) {
                    Ok((st, p)) => match define(entries, name, st, tok_at(toks, p)) {
                        Ok(e) => Ok((with_entries(strct, e), p)),
                        Err(e) => Err(e),
                    },
                    Err(e) => Err(e),
                },
                _ => Err(not_a_name()),
            },
        },
        None => Err(entry_in_map(tok_at(toks, pos))),
    }
}

/// `a + b { … }`: the structure is defined under each of the names.
pub open spec fn parse_compound_entry(toks: Seq<TokenView>, pos: nat, strct: StructView) -> Result<
    (StructView, nat),
    ErrorView,
>
    decreases remaining(toks, pos), 4nat,
{
    match entries_of(strct) {
        Some(entries) => match moved(pos, compound_names(toks, pos, Seq::empty())) {
            Ok((names, p1)) => match parse_struct(toks, p1) {
                Ok((st, p)) => match define_each(entries, names, 0, st, tok_at(toks, p)) {
                    Ok(e) => Ok((with_entries(strct, e), p)),
                    Err(e) => Err(e),
                },
                Err(e) => Err(e),
            },
            Err(e) => Err(e),
        },
        None => Err(entry_in_map(tok_at(toks, pos))),
    }
}

/// `name *`: recognised, and not read yet.
pub open spec fn parse_wild_entry(toks: Seq<TokenView>, pos: nat, strct: StructView) -> Result<
    (StructView, nat),
    ErrorView,
> {
    Err(unimplemented())
}

/// `name $`: recognised, and not read yet.
pub open spec fn parse_prop_entry(toks: Seq<TokenView>, pos: nat, strct: StructView) -> Result<
    (StructView, nat),
    ErrorView,
> {
    Err(unimplemented())
}

/// `name` and a break: the name is declared and holds no structure yet.
pub open spec fn parse_empty_entry(toks: Seq<TokenView>, pos: nat, strct: StructView) -> Result<
    (StructView, nat),
    ErrorView,
> {
    match entries_of(strct) {
        Some(entries) => match tok_at(toks, pos) {
            None => Err(eof(154)),
            Some(tok) => match tok.val {
                TokValView::Name(name) => match lookup(entries, name) {
                    Some(_) => Err(redefined(name, Some(tok))),
                    None => Ok((with_entries(strct, put(entries, name, None)), pos + 1)),
                },
                _ => Err(not_a_name()),
            },
        },
        None => Err(entry_in_map(tok_at(toks, pos))),
    }
}

/// A structure literal without a name: it is filed under the name that
/// the number of entries gives.
pub open spec fn parse_anon_entry(toks: Seq<TokenView>, pos: nat, strct: StructView) -> Result<
    (StructView, nat),
    ErrorView,
>
    decreases remaining(toks, pos), 4nat,
{
    match entries_of(strct) {
        Some(entries) => match parse_struct(toks, pos) {
            Ok((st, p)) => Ok(
                (with_entries(strct, put(entries, anon_name(entries.len()), Some(st))), p),
            ),
            Err(e) => Err(e),
        },
        None => Err(entry_in_map(tok_at(toks, pos))),
    }
}

/// One item of a body that begins with a name at `pos`: the token after
/// the name selects the production.
pub open spec fn parse_named_item(toks: Seq<TokenView>, pos: nat, strct: StructView) -> Result<
    (StructView, nat),
    ErrorView,
>
    decreases remaining(toks, pos), 5nat,
{
    match tok_at(toks, pos + 1) {
        None => Err(eof(155)),
        Some(next) => match next.val {
            TokValView::Comma => parse_multiple_binding(toks, pos, strct),
            TokValView::Equals => parse_single_binding(toks, pos, strct),
            TokValView::Plus => parse_compound_entry(toks, pos, strct),
            TokValView::Break => parse_empty_entry(toks, pos, strct),
            TokValView::Star => parse_wild_entry(toks, pos, strct),
            TokValView::Dollar => parse_prop_entry(toks, pos, strct),
            _ => parse_single_entry(toks, pos, strct),
        },
    }
}

/// The items of a body from `pos` on, read into `strct`, up to a
/// closing delimiter or the end of the tokens; breaks between the items
/// are passed over. The position returned is that of the closing
/// delimiter, or the end.
pub open spec fn parse_inner(toks: Seq<TokenView>, pos: nat, strct: StructView) -> Result<
    (StructView, nat),
    ErrorView,
>
    decreases remaining(toks, pos), 6nat,
{
    match tok_at(toks, pos) {
        None => Ok((strct, pos)),
        Some(tok) => match tok.val {
            TokValView::Break => parse_inner(toks, pos + 1, strct),
            TokValView::RBrace | TokValView::RBrack | TokValView::RBracePct => Ok((strct, pos)),
            TokValView::Name(_) => match moved(pos, parse_named_item(toks, pos, strct)) {
                Ok((s, p)) => parse_inner(toks, p, s),
                Err(e) => Err(e),
            },
            _ => match moved(pos, parse_anon_entry(toks, pos, strct)) {
                Ok((s, p)) => parse_inner(toks, p, s),
                Err(e) => Err(e),
            },
        },
    }
}

/// The error of a token where a structure must begin.
pub open spec fn expected_struct(tok: TokenView) -> ErrorView {
    detailed_error(153, "Expected Struct"@, tok, "Found "@ + debug_text(tok))
}

/// What an entry that fails leaves of `strct`.
pub open spec fn parse_single_entry_left(toks: Seq<TokenView>, pos: nat, strct: StructView) -> StructView {
    match entries_of(strct) {
        Some(entries) => match tok_at(toks, pos) {
            Some(tok) => match tok.val {
                TokValView::Name(name) => match parse_struct(toks, pos + 1) {
                    Ok((st, p)) => with_entries(strct, define_left(entries, name, st, tok_at(toks, p))),
                    Err(e) => strct,
                },
                _ => strct,
            },
            None => strct,
        },
        None => strct,
    }
}

/// What a compound entry that fails leaves of `strct`.
pub open spec fn parse_compound_entry_left(toks: Seq<TokenView>, pos: nat, strct: StructView) -> StructView {
    match entries_of(strct) {
        Some(entries) => match moved(pos, compound_names(toks, pos, Seq::empty())) {
            Ok((names, p1)) => match parse_struct(toks, p1) {
                Ok((st, p)) => with_entries(
                    strct,
                    define_each_left(entries, names, 0, st, tok_at(toks, p)),
                ),
                Err(e) => strct,
            },
            Err(e) => strct,
        },
        None => strct,
    }
}

/// What an item that begins with a name and fails leaves of `strct`: a
/// binding, a declaration and the productions that are not read yet
/// leave it as it was.
pub open spec fn parse_named_item_left(toks: Seq<TokenView>, pos: nat, strct: StructView) -> StructView {
    match tok_at(toks, pos + 1) {
        None => strct,
        Some(next) => match next.val {
            TokValView::Comma => strct,
            TokValView::Equals => strct,
            TokValView::Plus => parse_compound_entry_left(toks, pos, strct),
            TokValView::Break => strct,
            TokValView::Star => strct,
            TokValView::Dollar => strct,
            _ => parse_single_entry_left(toks, pos, strct),
        },
    }
}

/// What a body that fails leaves of `strct`: the items before the one
/// that fails are read into it, and the failing item leaves what
/// `parse_named_item_left` says.
pub open spec fn parse_inner_left(toks: Seq<TokenView>, pos: nat, strct: StructView) -> StructView
    decreases remaining(toks, pos),
{
    match tok_at(toks, pos) {
        None => strct,
        Some(tok) => match tok.val {
            TokValView::Break => parse_inner_left(toks, pos + 1, strct),
            TokValView::RBrace | TokValView::RBrack | TokValView::RBracePct => strct,
            TokValView::Name(_) => match moved(pos, parse_named_item(toks, pos, strct)) {
                Ok((s, p)) => parse_inner_left(toks, p, s),
                Err(e) => parse_named_item_left(toks, pos, strct),
            },
            _ => match moved(pos, parse_anon_entry(toks, pos, strct)) {
                Ok((s, p)) => parse_inner_left(toks, p, s),
                Err(e) => strct,
            },
        },
    }
}

/// The two productions that are not read yet are an error at the first
/// item of a body, and leave the structure as it was.
pub proof fn lemma_reserved_leaves(toks: Seq<TokenView>, pos: nat, strct: StructView)
    requires
        names_at(toks, pos),
        tok_at(toks, pos + 1) matches Some(next) && (next.val is Star || next.val is Dollar),
    ensures
        parse_inner(toks, pos, strct) == Err::<(StructView, nat), ErrorView>(unimplemented()),
        parse_inner_left(toks, pos, strct) == strct,
{
}

/// An entry that fails on the kinds of the two structures leaves the
/// structure that holds it as it was, and so does every entry in a map.
pub proof fn lemma_entry_conflict_leaves(toks: Seq<TokenView>, pos: nat, strct: StructView)
    requires
        strct is Mapping || (entries_of(strct) matches Some(entries) && tok_at(toks, pos) matches Some(
            tok,
        ) && tok.val matches TokValView::Name(name) && parse_struct(toks, pos + 1) matches Ok((st, p))
            && lookup(entries, name) matches Some(Some(ex)) && (!same_kind(ex, st) || ex is Mapping)),
    ensures
        parse_single_entry(toks, pos, strct) is Err,
        parse_single_entry_left(toks, pos, strct) == strct,
{
    if !(strct is Mapping) {
        let entries = entries_of(strct)->Some_0;
        let name = tok_at(toks, pos)->Some_0.val->Name_0;
        let st = parse_struct(toks, pos + 1)->Ok_0.0;
        let p = parse_struct(toks, pos + 1)->Ok_0.1;
        lemma_define_conflict(entries, name, st, tok_at(toks, p));
        lemma_conflict_leaves(entries, name, st, tok_at(toks, p));
    }
}

/// The root object that a sequence of tokens denotes: the items of a
/// body without delimiters, up to the end of the tokens. A closing
/// delimiter, which nothing has opened, is an error: a structure could
/// begin there, and nothing else.
pub open spec fn parse(toks: Seq<TokenView>) -> Result<StructView, ErrorView> {
    match parse_inner(toks, 0, empty_object()) {
        Ok((s, p)) => match tok_at(toks, p) {
            None => Ok(s),
            Some(tok) => Err(expected_struct(tok)),
        },
        Err(e) => Err(e),
    }
}

/// A body ends at the end of the tokens or at a closing delimiter.
pub proof fn lemma_inner_stops(toks: Seq<TokenView>, pos: nat, strct: StructView)
    ensures
        parse_inner(toks, pos, strct) matches Ok((s, p)) ==> (tok_at(toks, p) matches Some(tok)
            ==> tok.val is RBrace || tok.val is RBrack || tok.val is RBracePct),
    decreases remaining(toks, pos),
{
    if let Some(tok) = tok_at(toks, pos) {
        match tok.val {
            TokValView::Break => {
                lemma_inner_stops(toks, pos + 1, strct);
            },
            TokValView::RBrace | TokValView::RBrack | TokValView::RBracePct => {},
            TokValView::Name(_) => {
                if let Ok((s, p)) = moved(pos, parse_named_item(toks, pos, strct)) {
                    lemma_inner_stops(toks, p, s);
                }
            },
            _ => {
                if let Ok((s, p)) = moved(pos, parse_anon_entry(toks, pos, strct)) {
                    lemma_inner_stops(toks, p, s);
                }
            },
        }
    }
}

/// The root is returned only where every token has been read: a closing
/// delimiter in the body of the root is the error of a token where a
/// structure must begin.
pub proof fn lemma_parse_reads_all(toks: Seq<TokenView>)
    ensures
        parse(toks) is Ok ==> parse_inner(toks, 0, empty_object()) is Ok && parse_inner(
            toks,
            0,
            empty_object(),
        )->Ok_0.1 >= toks.len(),
        parse_inner(toks, 0, empty_object()) matches Ok((s, p)) ==> (tok_at(toks, p) matches Some(tok)
            ==> ((tok.val is RBrace || tok.val is RBrack || tok.val is RBracePct) && parse(toks)
            == Err::<StructView, ErrorView>(expected_struct(tok)))),
{
    lemma_inner_stops(toks, 0, empty_object());
}

/// The entries hold nothing but structures without a name: the `i`-th
/// name is the `i`-th of the names that such structures are filed under.
pub open spec fn anonymous_only(e: EntriesView) -> bool {
    forall|i: int| 0 <= i < e.len() ==> (#[trigger] e[i]).0 == anon_name(i as nat)
}

/// `entries` after each of `structs` has been filed without a name, in
/// order.
pub open spec fn file_each(entries: EntriesView, structs: Seq<StructView>) -> EntriesView
    decreases structs.len(),
{
    if structs.len() == 0 {
        entries
    } else {
        let e = file_each(entries, structs.drop_last());
        put(e, anon_name(e.len()), Some(structs.last()))
    }
}

/// Different numbers give different names.
pub proof fn lemma_anon_name_injective(a: nat, b: nat)
    requires
        anon_name(a) == anon_name(b),
    ensures
        a == b,
{
    let p = "#anon"@;
    assert(decimal(a) =~= anon_name(a).subrange(p.len() as int, anon_name(a).len() as int));
    assert(decimal(b) =~= anon_name(b).subrange(p.len() as int, anon_name(b).len() as int));
    crate::text::lemma_decimal_injective(a, b);
}

/// Among entries that are all without a name, a further one goes last,
/// under the next name, and replaces nothing.
pub proof fn lemma_file_anonymous(entries: EntriesView, st: StructView)
    requires
        anonymous_only(entries),
    ensures
        put(entries, anon_name(entries.len()), Some(st)) == entries.push(
            (anon_name(entries.len()), Some(st)),
        ),
        anonymous_only(put(entries, anon_name(entries.len()), Some(st))),
{
    let k = anon_name(entries.len());
    crate::omap::lemma_index_of(entries, k);
    if let Some(i) = crate::omap::index_of(entries, k) {
        assert(entries[i].0 == anon_name(i as nat));
        lemma_anon_name_injective(i as nat, entries.len());
    }
}

/// A body of `N` structures without a name, and nothing else that is an
/// entry, has the entries `#anon0` to `#anon(N-1)`, in the order of the
/// structures, each with its structure.
pub proof fn lemma_file_each(structs: Seq<StructView>)
    ensures
        file_each(Seq::empty(), structs).len() == structs.len(),
        forall|i: int|
            0 <= i < structs.len() ==> #[trigger] file_each(Seq::empty(), structs)[i] == (
                anon_name(i as nat),
                Some(structs[i]),
            ),
    decreases structs.len(),
{
    if structs.len() > 0 {
        let init = structs.drop_last();
        let e = file_each(Seq::empty(), init);
        lemma_file_each(init);
        assert(anonymous_only(e));
        lemma_file_anonymous(e, structs.last());
    }
}

/// What the parser does with a structure without a name is one step of
/// `file_each`: among entries that are all without a name, the
/// structure that is read goes last, under the next name.
pub proof fn lemma_anon_entry_files(toks: Seq<TokenView>, pos: nat, strct: StructView)
    requires
        entries_of(strct) matches Some(e) && anonymous_only(e),
        parse_anon_entry(toks, pos, strct) is Ok,
    ensures
        parse_struct(toks, pos) is Ok,
        parse_anon_entry(toks, pos, strct)->Ok_0.1 == parse_struct(toks, pos)->Ok_0.1,
        entries_of(parse_anon_entry(toks, pos, strct)->Ok_0.0) == Some(
            entries_of(strct)->Some_0.push(
                (anon_name(entries_of(strct)->Some_0.len()), Some(parse_struct(toks, pos)->Ok_0.0)),
            ),
        ),
        anonymous_only(entries_of(parse_anon_entry(toks, pos, strct)->Ok_0.0)->Some_0),
{
    lemma_file_anonymous(entries_of(strct)->Some_0, parse_struct(toks, pos)->Ok_0.0);
}

/// A value takes at least one token.
pub proof fn lemma_val_advances(toks: Seq<TokenView>, pos: nat)
    ensures
        parse_val(toks, pos) matches Ok((v, p)) ==> p > pos,
    decreases remaining(toks, pos), 0nat,
{
    if let Some(tok) = tok_at(toks, pos) {
        if tok.val is LParen {
            lemma_tuple_advances(toks, pos + 1, Seq::empty());
        }
    }
}

/// The rest of a tuple takes at least one token.
pub proof fn lemma_tuple_advances(toks: Seq<TokenView>, pos: nat, acc: Seq<ValueView>)
    ensures
        parse_tuple(toks, pos, acc) matches Ok((v, p)) ==> p > pos,
    decreases remaining(toks, pos), 1nat,
{
    lemma_val_advances(toks, pos);
    if let Ok((v, p)) = parse_val(toks, pos) {
        if let Some(tok) = tok_at(toks, p) {
            if tok.val is Comma {
                lemma_tuple_advances(toks, p + 1, acc.push(v));
            }
        }
    }
}

/// The names of a binding take at least one token.
pub proof fn lemma_binding_names_advance(toks: Seq<TokenView>, pos: nat, acc: Seq<Seq<char>>)
    ensures
        binding_names(toks, pos, acc) matches Ok((n, p)) ==> p > pos,
    decreases remaining(toks, pos),
{
    if let Ok(t) = expect(toks, pos, Gate::Name, "name"@) {
        if let Some(tok) = tok_at(toks, pos + 1) {
            if tok.val is Comma {
                lemma_binding_names_advance(toks, pos + 2, acc.push(t.val->Name_0));
            }
        }
    }
}

/// The names of a compound entry take at least one token.
pub proof fn lemma_compound_names_advance(toks: Seq<TokenView>, pos: nat, acc: Seq<Seq<char>>)
    ensures
        compound_names(toks, pos, acc) matches Ok((n, p)) ==> p > pos,
    decreases remaining(toks, pos),
{
    if let Ok(t) = expect(toks, pos, Gate::Name, "name"@) {
        if let Some(tok) = tok_at(toks, pos + 1) {
            if tok.val is Plus {
                lemma_compound_names_advance(toks, pos + 2, acc.push(t.val->Name_0));
            }
        }
    }
}

/// A structure literal takes at least one token.
pub proof fn lemma_struct_advances(toks: Seq<TokenView>, pos: nat)
    ensures
        parse_struct(toks, pos) matches Ok((s, p)) ==> p > pos,
    decreases remaining(toks, pos), 1nat,
{
    if let Some(tok) = tok_at(toks, pos) {
        if tok.val is LBrace {
            lemma_inner_advances(toks, pos + 1, empty_object());
        } else if tok.val is LBrack {
            lemma_inner_advances(toks, pos + 1, empty_table());
        } else if tok.val is LBracePct {
            lemma_inner_advances(toks, pos + 1, empty_mapping());
        }
    }
}

/// The right-hand side of a binding takes at least one token.
pub proof fn lemma_rhs_advances(toks: Seq<TokenView>, pos: nat, strct: StructView, names: Seq<Seq<char>>)
    ensures
        parse_rhs(toks, pos, strct, names) matches Ok((s, p)) ==> p > pos,
    decreases remaining(toks, pos), 3nat,
{
    if expect(toks, pos, Gate::Equals, "'='"@) is Ok {
        if let Some(tok) = tok_at(toks, pos + 1) {
            if tok.val is LBrace || tok.val is LBrack || tok.val is LBracePct {
                lemma_struct_advances(toks, pos + 1);
            } else {
                lemma_val_advances(toks, pos + 1);
            }
        }
    }
}

/// An item that begins with a name takes at least one token.
pub proof fn lemma_named_item_advances(toks: Seq<TokenView>, pos: nat, strct: StructView)
    ensures
        parse_named_item(toks, pos, strct) matches Ok((s, p)) ==> p > pos,
    decreases remaining(toks, pos), 5nat,
{
    if let Some(next) = tok_at(toks, pos + 1) {
        match next.val {
            TokValView::Comma => {
                lemma_binding_names_advance(toks, pos, Seq::empty());
                if let Ok((names, p)) = binding_names(toks, pos, Seq::empty()) {
                    lemma_rhs_advances(toks, p, strct, names);
                }
            },
            TokValView::Equals => {
                if let Some(tok) = tok_at(toks, pos) {
                    if let TokValView::Name(name) = tok.val {
                        lemma_rhs_advances(toks, pos + 1, strct, seq![name]);
                    }
                }
            },
            TokValView::Plus => {
                lemma_compound_names_advance(toks, pos, Seq::empty());
                if let Ok((names, p)) = compound_names(toks, pos, Seq::empty()) {
                    lemma_struct_advances(toks, p);
                }
            },
            TokValView::Break => {},
            TokValView::Star => {},
            TokValView::Dollar => {},
            _ => {
                lemma_struct_advances(toks, pos + 1);
            },
        }
    }
}

/// A body ends where it began or further on.
pub proof fn lemma_inner_advances(toks: Seq<TokenView>, pos: nat, strct: StructView)
    ensures
        parse_inner(toks, pos, strct) matches Ok((s, p)) ==> p >= pos,
    decreases remaining(toks, pos), 6nat,
{
    if let Some(tok) = tok_at(toks, pos) {
        match tok.val {
            TokValView::Break => {
                lemma_inner_advances(toks, pos + 1, strct);
            },
            TokValView::RBrace | TokValView::RBrack | TokValView::RBracePct => {},
            TokValView::Name(_) => {
                lemma_named_item_advances(toks, pos, strct);
                if let Ok((s, p)) = parse_named_item(toks, pos, strct) {
                    lemma_inner_advances(toks, p, s);
                }
            },
            _ => {
                lemma_struct_advances(toks, pos);
                if let Ok((s, p)) = parse_anon_entry(toks, pos, strct) {
                    lemma_inner_advances(toks, p, s);
                }
            },
        }
    }
}

/// A table takes no binding: whatever stands right of the `=`, the
/// binding is an error, and where the right-hand side can be read the
/// error is that of a binding in a table, at the `=`.
pub proof fn lemma_table_takes_no_binding(
    toks: Seq<TokenView>,
    pos: nat,
    strct: StructView,
    names: Seq<Seq<char>>,
)
    requires
        strct is Table,
    ensures
        parse_rhs(toks, pos, strct, names) is Err,
        expect(toks, pos, Gate::Equals, "'='"@) matches Ok(eq) ==> (parse_rval(toks, pos + 1) is Ok
            ==> parse_rhs(toks, pos, strct, names) == Err::<(StructView, nat), ErrorView>(
            binding_in_table(eq),
        )),
{
}

/// A map takes no entry: a structure with or without a name, under one
/// name or several, and a name that stands alone are all refused at the
/// token at which they begin.
pub proof fn lemma_map_takes_no_entry(toks: Seq<TokenView>, pos: nat, strct: StructView)
    requires
        strct is Mapping,
    ensures
        parse_single_entry(toks, pos, strct) == Err::<(StructView, nat), ErrorView>(
            entry_in_map(tok_at(toks, pos)),
        ),
        parse_compound_entry(toks, pos, strct) == Err::<(StructView, nat), ErrorView>(
            entry_in_map(tok_at(toks, pos)),
        ),
        parse_empty_entry(toks, pos, strct) == Err::<(StructView, nat), ErrorView>(
            entry_in_map(tok_at(toks, pos)),
        ),
        parse_anon_entry(toks, pos, strct) == Err::<(StructView, nat), ErrorView>(
            entry_in_map(tok_at(toks, pos)),
        ),
{
}

/// A name that is declared or defined cannot be declared again: the
/// name that stands alone is an error at its own token.
pub proof fn lemma_declared_twice(toks: Seq<TokenView>, pos: nat, strct: StructView)
    requires
        entries_of(strct) matches Some(entries) && tok_at(toks, pos) matches Some(tok) && tok.val
            matches TokValView::Name(name) && lookup(entries, name) is Some,
    ensures
        parse_empty_entry(toks, pos, strct) == Err::<(StructView, nat), ErrorView>(
            redefined(tok_at(toks, pos)->Some_0.val->Name_0, tok_at(toks, pos)),
        ),
{
}

/// A name that holds a structure cannot be given a structure of another
/// kind: `name { … }` is then the error that names the kind of what the
/// name holds, at the token after the literal.
pub proof fn lemma_entry_of_other_kind(toks: Seq<TokenView>, pos: nat, strct: StructView)
    requires
        entries_of(strct) matches Some(entries) && tok_at(toks, pos) matches Some(tok) && tok.val
            matches TokValView::Name(name) && parse_struct(toks, pos + 1) matches Ok((st, p))
            && lookup(entries, name) matches Some(Some(ex)) && (!same_kind(ex, st) || ex is Mapping),
    ensures
        parse_single_entry(toks, pos, strct) == Err::<(StructView, nat), ErrorView>(
            already_defined(
                lookup(entries_of(strct)->Some_0, tok_at(toks, pos)->Some_0.val->Name_0)->Some_0->Some_0,
                tok_at(toks, pos)->Some_0.val->Name_0,
                tok_at(toks, parse_struct(toks, pos + 1)->Ok_0.1),
            ),
        ),
{
    let entries = entries_of(strct)->Some_0;
    let name = tok_at(toks, pos)->Some_0.val->Name_0;
    let st = parse_struct(toks, pos + 1)->Ok_0.0;
    let p = parse_struct(toks, pos + 1)->Ok_0.1;
    lemma_define_conflict(entries, name, st, tok_at(toks, p));
}

/// An item leaves a structure of the kind that it was.
pub proof fn lemma_named_item_kind(toks: Seq<TokenView>, pos: nat, strct: StructView)
    ensures
        parse_named_item(toks, pos, strct) matches Ok((s, p)) ==> same_kind(strct, s),
{
}

/// The items of a body leave a structure of the kind that it was.
pub proof fn lemma_inner_kind(toks: Seq<TokenView>, pos: nat, strct: StructView)
    ensures
        parse_inner(toks, pos, strct) matches Ok((s, p)) ==> same_kind(strct, s),
    decreases remaining(toks, pos),
{
    if let Some(tok) = tok_at(toks, pos) {
        match tok.val {
            TokValView::Break => {
                lemma_inner_kind(toks, pos + 1, strct);
            },
            TokValView::RBrace | TokValView::RBrack | TokValView::RBracePct => {},
            TokValView::Name(_) => {
                lemma_named_item_kind(toks, pos, strct);
                if let Ok((s, p)) = parse_named_item(toks, pos, strct) {
                    if p > pos {
                        lemma_inner_kind(toks, p, s);
                    }
                }
            },
            _ => {
                if let Ok((s, p)) = parse_anon_entry(toks, pos, strct) {
                    if p > pos {
                        lemma_inner_kind(toks, p, s);
                    }
                }
            },
        }
    }
}

/// Every production that returns a result has read at least one token:
/// `moved` changes none of the results that the grammar hands to it.
pub proof fn lemma_productions_advance(
    toks: Seq<TokenView>,
    pos: nat,
    strct: StructView,
    names: Seq<Seq<char>>,
)
    ensures
        moved(pos, parse_val(toks, pos)) == parse_val(toks, pos),
        moved(pos, binding_names(toks, pos, names)) == binding_names(toks, pos, names),
        moved(pos, compound_names(toks, pos, names)) == compound_names(toks, pos, names),
        moved(pos, parse_named_item(toks, pos, strct)) == parse_named_item(toks, pos, strct),
        moved(pos, parse_anon_entry(toks, pos, strct)) == parse_anon_entry(toks, pos, strct),
{
    lemma_val_advances(toks, pos);
    lemma_binding_names_advance(toks, pos, names);
    lemma_compound_names_advance(toks, pos, names);
    lemma_named_item_advances(toks, pos, strct);
    lemma_struct_advances(toks, pos);
}

} // verus!
