//! The parser: from tokens to the root object, by recursive descent.
use crate::error::{Error, ErrorView};
use crate::grammar;
use crate::grammar::{
    break_at, fails, lemma_inner_kind, remaining, tok_at, yields, Gate, RValueView,
};
use crate::omap::{lemma_put_put, lookup, put, put_each};
use crate::text::push_decimal;
use crate::tokeniser::{token_debug, tokens_view, TokVal, Token, TokenView};
use crate::types::{
    entries_get, entries_get_index, entries_insert, entries_len, entries_new, lemma_tuple_view,
    props_extend, props_insert, props_new, values_view, Entries, Props, Struct, StructView, Value,
    ValueView,
};
use crate::wf::{lemma_parse, well_formed};
use crate::Lines;
use vstd::prelude::*;

verus! {

/// The view of a token that may be missing.
pub open spec fn opt_view(t: Option<Token<'_>>) -> Option<TokenView> {
    match t {
        Some(t) => Some(t@),
        None => None,
    }
}

fn eof<'src>(code: u8) -> (e: Error<'src>)
    ensures
        e@ == grammar::eof(code),
{
    Error::basic(code, String::from_str("Unexpected End-of-file"))
}

fn unreachable<'src>() -> (e: Error<'src>)
    ensures
        e@ == grammar::unreachable(),
{
    Error::basic(1, String::from_str("Internal Error: Reached the unreachable!"))
}

fn not_a_name<'src>() -> (e: Error<'src>)
    ensures
        e@ == grammar::not_a_name(),
{
    Error::basic(1, String::from_str("Internal Parser Error: TokVal was not Name"))
}

fn unimplemented<'src>() -> (e: Error<'src>)
    ensures
        e@ == grammar::unimplemented(),
{
    Error::basic(1, String::from_str("Internal Error: Unimplemented"))
}

fn error_at<'src>(cur: Option<Token<'src>>, code: u8, msg: String, hint: &str) -> (e: Error<'src>)
    ensures
        e@ == grammar::error_at(opt_view(cur), code, msg@, hint@),
{
    match cur {
        Some(t) => Error::detailed(code, msg, t, String::from_str(hint)),
        None => eof(154),
    }
}

fn expected_struct<'src>(tok: Token<'src>) -> (e: Error<'src>)
    ensures
        e@ == grammar::expected_struct(tok@),
{
    Error::detailed(153, String::from_str("Expected Struct"), tok, found(&tok))
}

fn entry_in_map<'src>(cur: Option<Token<'src>>) -> (e: Error<'src>)
    ensures
        e@ == grammar::entry_in_map(opt_view(cur)),
{
    error_at(cur, 156, String::from_str("Maps cannot contain Entries"), "Remove this entry")
}

fn binding_in_table<'src>(eq: Token<'src>) -> (e: Error<'src>)
    ensures
        e@ == grammar::binding_in_table(eq@),
{
    Error::detailed(
        157,
        String::from_str("Tables cannot contain Bindings"),
        eq,
        String::from_str("Remove this entry"),
    )
}

fn redefined<'src>(name: &str, cur: Option<Token<'src>>) -> (e: Error<'src>)
    ensures
        e@ == grammar::redefined(name@, opt_view(cur)),
{
    let mut msg = String::from_str("Entry ");
    msg.append(name);
    msg.append(" redefined with no new data");
    error_at(cur, 162, msg, "Remove this redefinition")
}

/// "Found " and the token as `{:?}` formats it.
fn found<'src>(tok: &Token<'src>) -> (s: String)
    ensures
        s@ == "Found "@ + crate::tokeniser::debug_text(tok@),
{
    let mut s = String::from_str("Found ");
    let d = token_debug(tok);
    s.append(d.as_str());
    s
}

fn gate_admits(gate: Gate, v: &TokVal) -> (b: bool)
    ensures
        b == grammar::admits(gate, v@),
{
    match gate {
        Gate::Name => matches!(v, TokVal::Name(_)),
        Gate::Equals => matches!(v, TokVal::Equals),
        Gate::LBrace => matches!(v, TokVal::LBrace),
        Gate::RBrace => matches!(v, TokVal::RBrace),
        Gate::LBrack => matches!(v, TokVal::LBrack),
        Gate::RBrack => matches!(v, TokVal::RBrack),
        Gate::LBracePct => matches!(v, TokVal::LBracePct),
        Gate::RBracePct => matches!(v, TokVal::RBracePct),
    }
}

/// A cursor over the tokens: the position of the current token, from
/// which the parser looks ahead and never back. The position may lie
/// behind the last token; no token is read there.
pub struct Parser<'ln, 'src> {
    input: &'src str,
    lines: &'ln Lines,
    tokens: Vec<Token<'src>>,
    ptr: usize,
}

impl<'ln, 'src> Parser<'ln, 'src> {
    /// The tokens, as the grammar sees them.
    pub closed spec fn toks(&self) -> Seq<TokenView> {
        tokens_view(self.tokens@)
    }

    /// The position of the current token.
    pub closed spec fn pos(&self) -> nat {
        self.ptr as nat
    }

    /// The cursor can move on: neither its position nor the number of
    /// the tokens is the largest number that the machine counts to. The
    /// cursor may stand behind the last token, as far as it was moved.
    pub open spec fn wf(&self) -> bool {
        &&& self.pos() < usize::MAX
        &&& self.toks().len() < usize::MAX
    }

    /// The cursor `self` runs over the tokens of `other`.
    pub open spec fn follows(&self, other: &Self) -> bool {
        self.toks() == other.toks()
    }

    /// A cursor on the first of `tokens`, of which there must be fewer
    /// than the machine counts to, so that the cursor can stand behind
    /// the last of them.
    pub fn new(input: &'src str, lines: &'ln Lines, tokens: Vec<Token<'src>>) -> (p: Parser<'ln, 'src>)
        requires
            tokens@.len() < usize::MAX,
        ensures
            p.toks() == tokens_view(tokens@),
            p.pos() == 0,
            p.wf(),
    {
        Parser { input, lines, tokens, ptr: 0 }
    }

    /// The current token.
    pub fn cur(&self) -> (r: Option<Token<'src>>)
        ensures
            opt_view(r) == tok_at(self.toks(), self.pos()),
    {
        self.peek(0)
    }

    /// The current token, which must exist.
    pub fn cur_expect(&self) -> (r: Result<Token<'src>, Error<'src>>)
        ensures
            match r {
                Ok(t) => tok_at(self.toks(), self.pos()) == Some(t@),
                Err(e) => tok_at(self.toks(), self.pos()) is None && e@ == grammar::eof(154),
            },
    {
        match self.cur() {
            Some(tok) => Ok(tok),
            None => Err(eof(154)),
        }
    }

    /// The token `n` places after the current one.
    pub fn peek(&self, n: usize) -> (r: Option<Token<'src>>)
        ensures
            opt_view(r) == tok_at(self.toks(), self.pos() + n as nat),
    {
        if n < self.tokens.len() && self.ptr < self.tokens.len() - n {
            Some(self.tokens[self.ptr + n])
        } else {
            None
        }
    }

    /// The token `n` places after the current one, which must exist.
    pub fn peek_expect(&self, n: usize) -> (r: Result<Token<'src>, Error<'src>>)
        ensures
            match r {
                Ok(t) => tok_at(self.toks(), self.pos() + n as nat) == Some(t@),
                Err(e) => tok_at(self.toks(), self.pos() + n as nat) is None && e@ == grammar::eof(155),
            },
    {
        match self.peek(n) {
            Some(tok) => Ok(tok),
            None => Err(eof(155)),
        }
    }

    /// The token after the current one.
    pub fn nxt(&self) -> (r: Option<Token<'src>>)
        ensures
            opt_view(r) == tok_at(self.toks(), self.pos() + 1),
    {
        self.peek(1)
    }

    /// The token after the current one, which must exist.
    pub fn nxt_expect(&self) -> (r: Result<Token<'src>, Error<'src>>)
        ensures
            match r {
                Ok(t) => tok_at(self.toks(), self.pos() + 1) == Some(t@),
                Err(e) => tok_at(self.toks(), self.pos() + 1) is None && e@ == grammar::eof(155),
            },
    {
        self.peek_expect(1)
    }

    /// Moves `n` tokens on, also past the last token; returns the
    /// token that is then current.
    pub fn advance(&mut self, n: usize) -> (r: Option<Token<'src>>)
        requires
            old(self).pos() + n <= usize::MAX,
        ensures
            final(self).follows(old(self)),
            final(self).pos() == old(self).pos() + n,
            opt_view(r) == tok_at(final(self).toks(), final(self).pos()),
    {
        self.ptr += n;
        self.cur()
    }

    /// Moves `n` tokens on; the token that is then current must exist.
    pub fn advance_expect(&mut self, n: usize) -> (r: Result<Token<'src>, Error<'src>>)
        requires
            old(self).pos() + n <= usize::MAX,
        ensures
            final(self).follows(old(self)),
            final(self).pos() == old(self).pos() + n,
            match r {
                Ok(t) => tok_at(old(self).toks(), old(self).pos() + n as nat) == Some(t@),
                Err(e) => tok_at(old(self).toks(), old(self).pos() + n as nat) is None && e@
                    == grammar::eof(154),
            },
    {
        self.advance(n);
        self.cur_expect()
    }

    /// Moves to the next token, also from the last token on.
    pub fn step(&mut self) -> (r: Option<Token<'src>>)
        requires
            old(self).pos() + 1 <= usize::MAX,
        ensures
            final(self).follows(old(self)),
            final(self).pos() == old(self).pos() + 1,
            opt_view(r) == tok_at(final(self).toks(), final(self).pos()),
    {
        self.advance(1)
    }

    /// Moves to the next token, which must exist.
    pub fn step_expect(&mut self) -> (r: Result<Token<'src>, Error<'src>>)
        requires
            old(self).pos() + 1 <= usize::MAX,
        ensures
            final(self).follows(old(self)),
            final(self).pos() == old(self).pos() + 1,
            match r {
                Ok(t) => tok_at(old(self).toks(), old(self).pos() + 1) == Some(t@),
                Err(e) => tok_at(old(self).toks(), old(self).pos() + 1) is None && e@ == grammar::eof(
                    154,
                ),
            },
    {
        self.advance_expect(1)
    }

    /// The current token, which `gate` must admit, and a move to the
    /// next in every case: whether the token is admitted or not, and
    /// also where there is none. `exp` says in the error what was
    /// expected.
    pub fn expect(&mut self, gate: Gate, exp: &str) -> (r: Result<Token<'src>, Error<'src>>)
        requires
            old(self).pos() + 1 <= usize::MAX,
        ensures
            final(self).follows(old(self)),
            final(self).pos() == old(self).pos() + 1,
            match r {
                Ok(t) => grammar::expect(old(self).toks(), old(self).pos(), gate, exp@) == Ok::<
                    TokenView,
                    ErrorView,
                >(t@),
                Err(e) => fails(grammar::expect(old(self).toks(), old(self).pos(), gate, exp@), e@),
            },
    {
        let ret = match self.cur() {
            Some(tok) => {
                if gate_admits(gate, &tok.val) {
                    Ok(tok)
                } else {
                    let mut msg = String::from_str("Expected ");
                    msg.append(exp);
                    Err(Error::detailed(150, msg, tok, found(&tok)))
                }
            },
            None => {
                let mut msg = String::from_str("Expected ");
                msg.append(exp);
                msg.append(" but found End-of-File");
                Err(Error::basic(151, msg))
            },
        };
        self.step();
        ret
    }

    /// Passes over the breaks at the cursor.
    pub fn allow_break(&mut self)
        requires
            old(self).wf(),
        ensures
            final(self).follows(old(self)),
            final(self).wf(),
            old(self).pos() <= final(self).pos(),
            forall|i: nat|
                old(self).pos() <= i < final(self).pos() ==> #[trigger] break_at(final(self).toks(), i),
            !break_at(final(self).toks(), final(self).pos()),
    {
        loop
            invariant
                self.follows(old(self)),
                self.wf(),
                old(self).pos() <= self.pos(),
                forall|i: nat| old(self).pos() <= i < self.pos() ==> #[trigger] break_at(self.toks(), i),
            ensures
                !break_at(self.toks(), self.pos()),
            decreases self.tokens.len() - self.ptr,
        {
            match self.cur() {
                Some(tok) => match tok.val {
                    TokVal::Break => {
                        self.step();
                    },
                    _ => {
                        return ;
                    },
                },
                None => {
                    return ;
                },
            }
        }
    }
}

fn already_defined<'src>(ex: &Struct, name: &str, cur: Option<Token<'src>>) -> (e: Error<'src>)
    ensures
        e@ == grammar::already_defined(ex@, name@, opt_view(cur)),
{
    let mut msg = String::from_str("Entry ");
    msg.append(name);
    msg.append(" already defined as ");
    match ex {
        Struct::Object { .. } => {
            msg.append("Object");
            error_at(cur, 161, msg, "Make this entry an Object")
        },
        Struct::Table { .. } => {
            msg.append("Table");
            error_at(cur, 160, msg, "Make this entry a Table")
        },
        Struct::Mapping { .. } => {
            msg.append("Map");
            error_at(cur, 159, msg, "Make this entry a Map")
        },
    }
}

impl Struct {
    /// Merges the entries of `new_entries` into `ex_entries`, in their
    /// order: a name that holds a structure is merged, a name that is
    /// known is not declared again, and every other name is inserted.
    /// A failure leaves what was merged before it.
    pub fn entries_extend<'ln, 'src>(
        parser: &Parser<'ln, 'src>,
        ex_entries: &mut Entries,
        new_entries: &Entries,
    ) -> (r: Result<(), Error<'src>>)
        ensures
            match r {
                Ok(()) => grammar::merge_entries(
                    old(ex_entries)@,
                    new_entries@,
                    0,
                    tok_at(parser.toks(), parser.pos()),
                ) == Ok::<_, ErrorView>(final(ex_entries)@),
                Err(e) => fails(
                    grammar::merge_entries(
                        old(ex_entries)@,
                        new_entries@,
                        0,
                        tok_at(parser.toks(), parser.pos()),
                    ),
                    e@,
                ) && final(ex_entries)@ == grammar::merge_entries_left(
                    old(ex_entries)@,
                    new_entries@,
                    0,
                    tok_at(parser.toks(), parser.pos()),
                ),
            },
        decreases new_entries@, 1nat,
    {
        let ghost cur = tok_at(parser.toks(), parser.pos());
        let ghost goal = grammar::merge_entries(old(ex_entries)@, new_entries@, 0, cur);
        let ghost left = grammar::merge_entries_left(old(ex_entries)@, new_entries@, 0, cur);
        let n = entries_len(new_entries);
        let mut i: usize = 0;
        while i < n
            invariant
                i <= n,
                n == new_entries@.len(),
                cur == tok_at(parser.toks(), parser.pos()),
                goal == grammar::merge_entries(old(ex_entries)@, new_entries@, 0, cur),
                goal == grammar::merge_entries(ex_entries@, new_entries@, i as nat, cur),
                left == grammar::merge_entries_left(old(ex_entries)@, new_entries@, 0, cur),
                left == grammar::merge_entries_left(ex_entries@, new_entries@, i as nat, cur),
            decreases n - i,
        {
            let ghost before = ex_entries@;
            match entries_get_index(new_entries, i) {
                Some((new_key, new_entry)) => {
                    match new_entry {
                        Some(incoming) => {
                            let defined = match entries_get(ex_entries, new_key.as_str()) {
                                Some(Some(_)) => true,
                                _ => false,
                            };
                            if defined {
                                match entries_insert(ex_entries, new_key.clone(), None) {
                                    Some(Some(mut extant)) => {
                                        proof {
                                            let pair = new_entries@[i as int];
                                            assert(decreases_to!(new_entries@ => pair));
                                            assert(decreases_to!(pair => pair.1));
                                            assert(decreases_to!(pair.1 => pair.1->Some_0));
                                        }
                                        let merged = extant.extend(
                                            parser,
                                            new_key.as_str(),
                                            incoming.clone(),
                                        );
                                        entries_insert(ex_entries, new_key.clone(), Some(extant));
                                        proof {
                                            lemma_put_put(before, new_key@, None, Some(extant@));
                                        }
                                        match merged {
                                            Ok(()) => {},
                                            Err(e) => {
                                                return Err(e);
                                            },
                                        }
                                    },
                                    _ => {
                                        assert(false);
                                    },
                                }
                            } else {
                                entries_insert(ex_entries, new_key.clone(), Some(incoming.clone()));
                            }
                        },
                        None => {
                            match entries_get(ex_entries, new_key.as_str()) {
                                Some(_) => {
                                    return Err(redefined(new_key.as_str(), parser.cur()));
                                },
                                None => {
                                    entries_insert(ex_entries, new_key.clone(), None);
                                },
                            }
                        },
                    }
                },
                None => {
                    assert(false);
                },
            }
            i += 1;
        }
        Ok(())
    }

    /// Merges a further definition `new` of the entry `name` into
    /// `self`, the structure that the name holds. The two must be of
    /// one kind, and a map takes no further definition: then `self`
    /// stays as it is. A failure further in leaves what was merged
    /// before it.
    pub fn extend<'ln, 'src>(&mut self, parser: &Parser<'ln, 'src>, name: &str, new: Struct) -> (r: Result<
        (),
        Error<'src>,
    >)
        ensures
            match r {
                Ok(()) => grammar::merge(old(self)@, name@, new@, tok_at(parser.toks(), parser.pos()))
                    == Ok::<_, ErrorView>(final(self)@),
                Err(e) => fails(
                    grammar::merge(old(self)@, name@, new@, tok_at(parser.toks(), parser.pos())),
                    e@,
                ) && final(self)@ == grammar::merge_left(
                    old(self)@,
                    name@,
                    new@,
                    tok_at(parser.toks(), parser.pos()),
                ),
            },
            !grammar::same_kind(old(self)@, new@) || old(self)@ is Mapping ==> r is Err && final(self)@
                == old(self)@,
        decreases new@, 2nat,
    {
        match self {
            Struct::Object { entries: ex_entries, props: ex_props } => {
                match new {
                    Struct::Object { entries: new_entries, props: new_props } => {
                        props_extend(ex_props, new_props);
                        Struct::entries_extend(parser, ex_entries, &new_entries)
                    },
                    _ => Err(already_defined(self, name, parser.cur())),
                }
            },
            Struct::Table { entries: ex_entries } => {
                match new {
                    Struct::Table { entries: new_entries } => {
                        Struct::entries_extend(parser, ex_entries, &new_entries)
                    },
                    _ => Err(already_defined(self, name, parser.cur())),
                }
            },
            Struct::Mapping { .. } => Err(already_defined(self, name, parser.cur())),
        }
    }
}

/// The right-hand side of a binding.
#[derive(Debug)]
pub enum RValue {
    Value(Value),
    Struct(Struct),
}

impl View for RValue {
    type V = RValueView;

    open spec fn view(&self) -> RValueView {
        match self {
            RValue::Value(v) => RValueView::Value(v@),
            RValue::Struct(s) => RValueView::Struct(s@),
        }
    }
}

/// The views of a list of names, in order.
pub open spec fn names_view(names: Seq<String>) -> Seq<Seq<char>> {
    names.map_values(|s: String| s@)
}

/// The views of a list of names, in order.
pub open spec fn strs_view(names: Seq<&str>) -> Seq<Seq<char>> {
    names.map_values(|s: &str| s@)
}

/// The name under which the `n`-th entry is filed when it has none.
fn anon_key(n: usize) -> (s: String)
    ensures
        s@ == grammar::anon_name(n as nat),
{
    let mut s = String::from_str("#anon");
    push_decimal(&mut s, n);
    s
}

fn new_object() -> (s: Struct)
    ensures
        s@ == grammar::empty_object(),
{
    Struct::Object { entries: entries_new(), props: props_new() }
}

fn new_table() -> (s: Struct)
    ensures
        s@ == grammar::empty_table(),
{
    Struct::Table { entries: entries_new() }
}

fn new_mapping() -> (s: Struct)
    ensures
        s@ == grammar::empty_mapping(),
{
    Struct::Mapping { props: props_new() }
}

/// Binds each of `names` to a copy of `val`.
fn bind_each(props: &mut Props, names: &Vec<String>, val: &Value)
    ensures
        crate::types::props_contents(*final(props)) == put_each(
            crate::types::props_contents(*old(props)),
            names_view(names@),
            val@,
        ),
{
    let ghost all = names_view(names@);
    let mut i: usize = 0;
    while i < names.len()
        invariant
            i <= names.len(),
            all == names_view(names@),
            crate::types::props_contents(*props) == put_each(
                crate::types::props_contents(*old(props)),
                all.take(i as int),
                val@,
            ),
        decreases names.len() - i,
    {
        proof {
            assert(all.take(i + 1).drop_last() =~= all.take(i as int));
            assert(all.take(i + 1).last() == names@[i as int]@);
        }
        props_insert(props, names[i].clone(), val.clone());
        i += 1;
    }
    proof {
        assert(all.take(names.len() as int) =~= all);
    }
}

/// Defines `name` as `st`: merged into the structure that the name
/// holds, inserted where it holds none. A merge that fails leaves the
/// name with what the merge leaves of its structure.
fn define<'ln, 'src>(parser: &Parser<'ln, 'src>, entries: &mut Entries, name: &str, st: Struct) -> (r:
    Result<(), Error<'src>>)
    ensures
        match r {
            Ok(()) => grammar::define(old(entries)@, name@, st@, tok_at(parser.toks(), parser.pos()))
                == Ok::<_, ErrorView>(final(entries)@),
            Err(e) => fails(
                grammar::define(old(entries)@, name@, st@, tok_at(parser.toks(), parser.pos())),
                e@,
            ) && final(entries)@ == grammar::define_left(
                old(entries)@,
                name@,
                st@,
                tok_at(parser.toks(), parser.pos()),
            ),
        },
{
    let defined = match entries_get(entries, name) {
        Some(Some(_)) => true,
        _ => false,
    };
    if defined {
        match entries_insert(entries, String::from_str(name), None) {
            Some(Some(mut extant)) => {
                let merged = extant.extend(parser, name, st);
                entries_insert(entries, String::from_str(name), Some(extant));
                proof {
                    lemma_put_put(old(entries)@, name@, None, Some(extant@));
                }
                merged
            },
            _ => {
                assert(false);
                Ok(())
            },
        }
    } else {
        entries_insert(entries, String::from_str(name), Some(st));
        Ok(())
    }
}

/// Defines each of `names` as a copy of `st`. A definition that fails
/// leaves the names before it defined.
fn define_each<'ln, 'src>(
    parser: &Parser<'ln, 'src>,
    entries: &mut Entries,
    names: &Vec<&'src str>,
    st: &Struct,
) -> (r: Result<(), Error<'src>>)
    ensures
        match r {
            Ok(()) => grammar::define_each(
                old(entries)@,
                strs_view(names@),
                0,
                st@,
                tok_at(parser.toks(), parser.pos()),
            ) == Ok::<_, ErrorView>(final(entries)@),
            Err(e) => fails(
                grammar::define_each(
                    old(entries)@,
                    strs_view(names@),
                    0,
                    st@,
                    tok_at(parser.toks(), parser.pos()),
                ),
                e@,
            ) && final(entries)@ == grammar::define_each_left(
                old(entries)@,
                strs_view(names@),
                0,
                st@,
                tok_at(parser.toks(), parser.pos()),
            ),
        },
{
    let ghost cur = tok_at(parser.toks(), parser.pos());
    let ghost goal = grammar::define_each(old(entries)@, strs_view(names@), 0, st@, cur);
    let ghost left = grammar::define_each_left(old(entries)@, strs_view(names@), 0, st@, cur);
    let mut i: usize = 0;
    while i < names.len()
        invariant
            i <= names.len(),
            cur == tok_at(parser.toks(), parser.pos()),
            goal == grammar::define_each(old(entries)@, strs_view(names@), 0, st@, cur),
            goal == grammar::define_each(entries@, strs_view(names@), i as nat, st@, cur),
            left == grammar::define_each_left(old(entries)@, strs_view(names@), 0, st@, cur),
            left == grammar::define_each_left(entries@, strs_view(names@), i as nat, st@, cur),
        decreases names.len() - i,
    {
        match define(parser, entries, names[i], st.clone()) {
            Ok(()) => {},
            Err(e) => {
                return Err(e);
            },
        }
        i += 1;
    }
    Ok(())
}

proof fn lemma_push_value(vs: Seq<Value>, v: Value)
    ensures
        values_view(vs.push(v)) == values_view(vs).push(v@),
{
    assert(values_view(vs.push(v)) =~= values_view(vs).push(v@));
}

/// Breaks before an item do not count.
proof fn lemma_skip_breaks(toks: Seq<TokenView>, a: nat, b: nat, strct: StructView)
    requires
        a <= b,
        forall|i: nat| a <= i < b ==> #[trigger] break_at(toks, i),
    ensures
        grammar::parse_inner(toks, a, strct) == grammar::parse_inner(toks, b, strct),
        grammar::parse_inner_left(toks, a, strct) == grammar::parse_inner_left(toks, b, strct),
    decreases b - a,
{
    if a < b {
        assert(break_at(toks, a));
        lemma_skip_breaks(toks, a + 1, b, strct);
    }
}

/* Parse Bindings */

/// Reads a scalar value.
pub fn parse_val<'ln, 'src>(parser: &mut Parser<'ln, 'src>) -> (r: Result<Value, Error<'src>>)
    requires
        old(parser).wf(),
    ensures
        final(parser).follows(old(parser)),
        match r {
            Ok(v) => yields(
                grammar::parse_val(old(parser).toks(), old(parser).pos()),
                v@,
                final(parser).pos(),
            ) && final(parser).pos() > old(parser).pos() && final(parser).wf(),
            Err(e) => fails(grammar::parse_val(old(parser).toks(), old(parser).pos()), e@),
        },
    decreases remaining(old(parser).toks(), old(parser).pos()), 0nat,
{
    let tok = match parser.cur_expect() {
        Ok(tok) => tok,
        Err(e) => {
            return Err(e);
        },
    };
    match tok.val {
        TokVal::Name(name) => {
            parser.step();
            Ok(Value::Key(String::from_str(name)))
        },
        TokVal::Dollar => {
            parser.step();
            match parser.expect(Gate::Name, "name") {
                Ok(t) => match t.val {
                    TokVal::Name(name) => Ok(Value::Var(String::from_str(name))),
                    _ => Err(unreachable()),
                },
                Err(e) => Err(e),
            }
        },
        TokVal::At => {
            parser.step();
            match parser.expect(Gate::Name, "name") {
                Ok(t) => match t.val {
                    TokVal::Name(name) => Ok(Value::Foreign(String::from_str(name))),
                    _ => Err(unreachable()),
                },
                Err(e) => Err(e),
            }
        },
        TokVal::String(string) => {
            parser.step();
            Ok(Value::Str(String::from_str(string)))
        },
        TokVal::Integer(integer) => {
            parser.step();
            Ok(Value::Int(integer))
        },
        TokVal::Float(float) => {
            parser.step();
            Ok(Value::Float(String::from_str(float)))
        },
        TokVal::Boolean(boolean) => {
            parser.step();
            Ok(Value::Bool(boolean))
        },
        TokVal::LParen => {
            parser.step();
            let ghost goal = grammar::parse_val(old(parser).toks(), old(parser).pos());
            let mut tuple: Vec<Value> = Vec::new();
            assert(values_view(tuple@) =~= Seq::<ValueView>::empty());
            loop
                invariant
                    parser.follows(old(parser)),
                    parser.wf(),
                    parser.pos() > old(parser).pos(),
                    old(parser).pos() < old(parser).toks().len(),
                    goal == grammar::parse_val(old(parser).toks(), old(parser).pos()),
                    goal == grammar::parse_tuple(parser.toks(), parser.pos(), values_view(tuple@)),
                decreases remaining(parser.toks(), parser.pos()),
            {
                let v = match parse_val(parser) {
                    Ok(v) => v,
                    Err(e) => {
                        return Err(e);
                    },
                };
                proof {
                    lemma_push_value(tuple@, v);
                }
                tuple.push(v);
                let tok = match parser.cur_expect() {
                    Ok(tok) => tok,
                    Err(e) => {
                        return Err(e);
                    },
                };
                match tok.val {
                    TokVal::RParen => {
                        parser.step();
                        proof {
                            lemma_tuple_view(tuple);
                        }
                        return Ok(Value::Tuple(tuple));
                    },
                    TokVal::Comma => {
                        parser.step();
                    },
                    _ => {
                        return Err(
                            Error::detailed(
                                164,
                                String::from_str("Invalid syntax inside tuple"),
                                tok,
                                String::from_str("Expected ',' or ')'"),
                            ),
                        );
                    },
                }
            }
        },
        _ => Err(
            Error::detailed(
                158,
                String::from_str("Expected Value"),
                tok,
                String::from_str("Make this a value"),
            ),
        ),
    }
}

/// Reads the right-hand side of a binding: a structure literal where
/// an opening delimiter stands, a scalar value otherwise.
pub fn parse_rval<'ln, 'src>(parser: &mut Parser<'ln, 'src>) -> (r: Result<RValue, Error<'src>>)
    requires
        old(parser).wf(),
    ensures
        final(parser).follows(old(parser)),
        match r {
            Ok(v) => yields(
                grammar::parse_rval(old(parser).toks(), old(parser).pos()),
                v@,
                final(parser).pos(),
            ) && final(parser).pos() > old(parser).pos() && final(parser).wf(),
            Err(e) => fails(grammar::parse_rval(old(parser).toks(), old(parser).pos()), e@),
        },
    decreases remaining(old(parser).toks(), old(parser).pos()), 2nat,
{
    let tok = match parser.cur_expect() {
        Ok(tok) => tok,
        Err(e) => {
            return Err(e);
        },
    };
    match tok.val {
        TokVal::LBrace | TokVal::LBrack | TokVal::LBracePct => match parse_struct(parser) {
            Ok(st) => Ok(RValue::Struct(st)),
            Err(e) => Err(e),
        },
        _ => match parse_val(parser) {
            Ok(v) => Ok(RValue::Value(v)),
            Err(e) => Err(e),
        },
    }
}

/// Reads `= rhs` and binds `names` to it in `strct`: to the value, or
/// to a key for the structure, which is filed as an entry without a
/// name. An error leaves `strct` as it was.
pub fn parse_rhs<'ln, 'src>(parser: &mut Parser<'ln, 'src>, strct: &mut Struct, names: Vec<String>) -> (r:
    Result<(), Error<'src>>)
    requires
        old(parser).wf(),
    ensures
        final(parser).follows(old(parser)),
        match r {
            Ok(()) => yields(
                grammar::parse_rhs(old(parser).toks(), old(parser).pos(), old(strct)@, names_view(names@)),
                final(strct)@,
                final(parser).pos(),
            ) && final(parser).pos() > old(parser).pos() && final(parser).wf(),
            Err(e) => fails(
                grammar::parse_rhs(old(parser).toks(), old(parser).pos(), old(strct)@, names_view(names@)),
                e@,
            ) && final(strct)@ == old(strct)@,
        },
    decreases remaining(old(parser).toks(), old(parser).pos()), 3nat,
{
    let eq = match parser.expect(Gate::Equals, "'='") {
        Ok(eq) => eq,
        Err(e) => {
            return Err(e);
        },
    };
    let rval_start = match parser.cur_expect() {
        Ok(tok) => tok,
        Err(e) => {
            return Err(e);
        },
    };
    let rval = match parse_rval(parser) {
        Ok(rval) => rval,
        Err(e) => {
            return Err(e);
        },
    };
    match rval {
        RValue::Value(val) => match strct {
            Struct::Object { entries, props } => {
                bind_each(props, &names, &val);
                Ok(())
            },
            Struct::Mapping { props } => {
                bind_each(props, &names, &val);
                Ok(())
            },
            Struct::Table { entries } => Err(binding_in_table(eq)),
        },
        RValue::Struct(st) => match strct {
            Struct::Object { entries, props } => {
                let anon = anon_key(entries_len(entries));
                bind_each(props, &names, &Value::Key(anon.clone()));
                entries_insert(entries, anon, Some(st));
                Ok(())
            },
            Struct::Mapping { props } => Err(entry_in_map(Some(rval_start))),
            Struct::Table { entries } => Err(binding_in_table(eq)),
        },
    }
}

/// Reads `name = rhs`. An error leaves `strct` as it was.
pub fn parse_single_binding<'ln, 'src>(parser: &mut Parser<'ln, 'src>, strct: &mut Struct) -> (r: Result<
    (),
    Error<'src>,
>)
    requires
        old(parser).wf(),
    ensures
        final(parser).follows(old(parser)),
        match r {
            Ok(()) => yields(
                grammar::parse_single_binding(old(parser).toks(), old(parser).pos(), old(strct)@),
                final(strct)@,
                final(parser).pos(),
            ) && final(parser).pos() > old(parser).pos() && final(parser).wf(),
            Err(e) => fails(
                grammar::parse_single_binding(old(parser).toks(), old(parser).pos(), old(strct)@),
                e@,
            ) && final(strct)@ == old(strct)@,
        },
    decreases remaining(old(parser).toks(), old(parser).pos()), 4nat,
{
    let tok = match parser.cur_expect() {
        Ok(tok) => tok,
        Err(e) => {
            return Err(e);
        },
    };
    if let TokVal::Name(name) = tok.val {
        parser.step();
        let mut names: Vec<String> = Vec::new();
        names.push(String::from_str(name));
        assert(names_view(names@) =~= seq![name@]);
        parse_rhs(parser, strct, names)
    } else {
        Err(not_a_name())
    }
}

/// Reads `a, b = rhs`. An error leaves `strct` as it was.
pub fn parse_multiple_binding<'ln, 'src>(parser: &mut Parser<'ln, 'src>, strct: &mut Struct) -> (r:
    Result<(), Error<'src>>)
    requires
        old(parser).wf(),
    ensures
        final(parser).follows(old(parser)),
        match r {
            Ok(()) => yields(
                grammar::parse_multiple_binding(old(parser).toks(), old(parser).pos(), old(strct)@),
                final(strct)@,
                final(parser).pos(),
            ) && final(parser).pos() > old(parser).pos() && final(parser).wf(),
            Err(e) => fails(
                grammar::parse_multiple_binding(old(parser).toks(), old(parser).pos(), old(strct)@),
                e@,
            ) && final(strct)@ == old(strct)@,
        },
    decreases remaining(old(parser).toks(), old(parser).pos()), 4nat,
{
    let ghost start = old(parser).pos();
    let ghost goal = grammar::binding_names(parser.toks(), start, Seq::empty());
    let mut names: Vec<String> = Vec::new();
    assert(names_view(names@) =~= Seq::<Seq<char>>::empty());
    loop
        invariant_except_break
            goal == grammar::binding_names(parser.toks(), parser.pos(), names_view(names@)),
        invariant
            parser.follows(old(parser)),
            parser.wf(),
            start == old(parser).pos(),
            start <= parser.pos(),
            goal == grammar::binding_names(old(parser).toks(), start, Seq::empty()),
            old(strct)@ == strct@,
        ensures
            goal == Ok::<_, ErrorView>((names_view(names@), parser.pos())),
            start < parser.pos(),
        decreases remaining(parser.toks(), parser.pos()),
    {
        let t = match parser.expect(Gate::Name, "name") {
            Ok(t) => t,
            Err(e) => {
                return Err(e);
            },
        };
        if let TokVal::Name(name) = t.val {
            let owned = String::from_str(name);
            proof {
                assert(names_view(names@.push(owned)) =~= names_view(names@).push(name@));
            }
            names.push(owned);
            let tok = match parser.cur_expect() {
                Ok(tok) => tok,
                Err(e) => {
                    return Err(e);
                },
            };
            match tok.val {
                TokVal::Equals => {
                    break ;
                },
                TokVal::Comma => {
                    parser.step();
                },
                _ => {
                    return Err(
                        Error::detailed(
                            163,
                            String::from_str("Expected '=' or ','"),
                            tok,
                            String::from_str("Could not parse this token"),
                        ),
                    );
                },
            }
        } else {
            return Err(unreachable());
        }
    }
    parse_rhs(parser, strct, names)
}

/* Parse Entries */

/// Reads `name { … }` and defines the name as the structure. An error
/// leaves `strct` as it was, but for a merge that fails further in than
/// on the kinds of the two structures.
pub fn parse_single_entry<'ln, 'src>(parser: &mut Parser<'ln, 'src>, strct: &mut Struct) -> (r: Result<
    (),
    Error<'src>,
>)
    requires
        old(parser).wf(),
    ensures
        final(parser).follows(old(parser)),
        match r {
            Ok(()) => yields(
                grammar::parse_single_entry(old(parser).toks(), old(parser).pos(), old(strct)@),
                final(strct)@,
                final(parser).pos(),
            ) && final(parser).pos() > old(parser).pos() && final(parser).wf(),
            Err(e) => fails(
                grammar::parse_single_entry(old(parser).toks(), old(parser).pos(), old(strct)@),
                e@,
            ) && final(strct)@ == grammar::parse_single_entry_left(
                old(parser).toks(),
                old(parser).pos(),
                old(strct)@,
            ),
        },
    decreases remaining(old(parser).toks(), old(parser).pos()), 4nat,
{
    if let Struct::Mapping { .. } = strct {
        return Err(entry_in_map(parser.cur()));
    }
    let tok = match parser.cur_expect() {
        Ok(tok) => tok,
        Err(e) => {
            return Err(e);
        },
    };
    if let TokVal::Name(name) = tok.val {
        parser.step();
        let st = match parse_struct(parser) {
            Ok(st) => st,
            Err(e) => {
                return Err(e);
            },
        };
        match strct {
            Struct::Object { entries, props } => define(parser, entries, name, st),
            Struct::Table { entries } => define(parser, entries, name, st),
            Struct::Mapping { props } => Err(unreachable()),
        }
    } else {
        Err(not_a_name())
    }
}

/// Reads `a + b { … }` and defines each of the names as the structure.
/// An error in the names or in the literal leaves `strct` as it was; a
/// definition that fails leaves the names before it defined.
pub fn parse_compound_entry<'ln, 'src>(parser: &mut Parser<'ln, 'src>, strct: &mut Struct) -> (r: Result<
    (),
    Error<'src>,
>)
    requires
        old(parser).wf(),
    ensures
        final(parser).follows(old(parser)),
        match r {
            Ok(()) => yields(
                grammar::parse_compound_entry(old(parser).toks(), old(parser).pos(), old(strct)@),
                final(strct)@,
                final(parser).pos(),
            ) && final(parser).pos() > old(parser).pos() && final(parser).wf(),
            Err(e) => fails(
                grammar::parse_compound_entry(old(parser).toks(), old(parser).pos(), old(strct)@),
                e@,
            ) && final(strct)@ == grammar::parse_compound_entry_left(
                old(parser).toks(),
                old(parser).pos(),
                old(strct)@,
            ),
        },
    decreases remaining(old(parser).toks(), old(parser).pos()), 4nat,
{
    if let Struct::Mapping { .. } = strct {
        return Err(entry_in_map(parser.cur()));
    }
    let ghost start = old(parser).pos();
    let ghost goal = grammar::compound_names(parser.toks(), start, Seq::empty());
    let mut names: Vec<&'src str> = Vec::new();
    assert(strs_view(names@) =~= Seq::<Seq<char>>::empty());
    loop
        invariant_except_break
            goal == grammar::compound_names(parser.toks(), parser.pos(), strs_view(names@)),
        invariant
            parser.follows(old(parser)),
            parser.wf(),
            start == old(parser).pos(),
            start <= parser.pos(),
            goal == grammar::compound_names(old(parser).toks(), start, Seq::empty()),
            old(strct)@ == strct@,
            !(old(strct)@ is Mapping),
        ensures
            goal == Ok::<_, ErrorView>((strs_view(names@), parser.pos())),
            start < parser.pos(),
        decreases remaining(parser.toks(), parser.pos()),
    {
        let t = match parser.expect(Gate::Name, "name") {
            Ok(t) => t,
            Err(e) => {
                return Err(e);
            },
        };
        if let TokVal::Name(name) = t.val {
            proof {
                assert(strs_view(names@.push(name)) =~= strs_view(names@).push(name@));
            }
            names.push(name);
        } else {
            return Err(unreachable());
        }
        let tok = match parser.cur_expect() {
            Ok(tok) => tok,
            Err(e) => {
                return Err(e);
            },
        };
        if !matches!(tok.val, TokVal::Plus) {
            break ;
        }
        parser.step();
    }
    let st = match parse_struct(parser) {
        Ok(st) => st,
        Err(e) => {
            return Err(e);
        },
    };
    match strct {
        Struct::Object { entries, props } => define_each(parser, entries, &names, &st),
        Struct::Table { entries } => define_each(parser, entries, &names, &st),
        Struct::Mapping { props } => Err(unreachable()),
    }
}

/// `name *`: recognised, and not read yet.
pub fn parse_wild_entry<'ln, 'src>(parser: &mut Parser<'ln, 'src>, strct: &mut Struct) -> (r: Result<
    (),
    Error<'src>,
>)
    ensures
        *final(parser) == *old(parser),
        *final(strct) == *old(strct),
        r matches Err(e) && fails(
            grammar::parse_wild_entry(old(parser).toks(), old(parser).pos(), old(strct)@),
            e@,
        ),
{
    Err(unimplemented())
}

/// `name $`: recognised, and not read yet.
pub fn parse_prop_entry<'ln, 'src>(parser: &mut Parser<'ln, 'src>, strct: &mut Struct) -> (r: Result<
    (),
    Error<'src>,
>)
    ensures
        *final(parser) == *old(parser),
        *final(strct) == *old(strct),
        r matches Err(e) && fails(
            grammar::parse_prop_entry(old(parser).toks(), old(parser).pos(), old(strct)@),
            e@,
        ),
{
    Err(unimplemented())
}

/// Reads a name that stands alone and declares it: it holds no
/// structure yet. A name that is declared or defined already is an
/// error, behind the name. Every error leaves `strct` as it was.
pub fn parse_empty_entry<'ln, 'src>(parser: &mut Parser<'ln, 'src>, strct: &mut Struct) -> (r: Result<
    (),
    Error<'src>,
>)
    requires
        old(parser).wf(),
    ensures
        final(parser).follows(old(parser)),
        match r {
            Ok(()) => yields(
                grammar::parse_empty_entry(old(parser).toks(), old(parser).pos(), old(strct)@),
                final(strct)@,
                final(parser).pos(),
            ) && final(parser).pos() > old(parser).pos() && final(parser).wf(),
            Err(e) => fails(
                grammar::parse_empty_entry(old(parser).toks(), old(parser).pos(), old(strct)@),
                e@,
            ) && final(strct)@ == old(strct)@ && final(parser).pos() == if grammar::entries_of(
                old(strct)@,
            ) is Some && grammar::names_at(old(parser).toks(), old(parser).pos()) {
                old(parser).pos() + 1
            } else {
                old(parser).pos()
            },
        },
{
    if let Struct::Mapping { .. } = strct {
        return Err(entry_in_map(parser.cur()));
    }
    let tok = match parser.cur_expect() {
        Ok(tok) => tok,
        Err(e) => {
            return Err(e);
        },
    };
    if let TokVal::Name(name) = tok.val {
        parser.step();
        match strct {
            Struct::Object { entries, props } => declare(entries, name, tok),
            Struct::Table { entries } => declare(entries, name, tok),
            Struct::Mapping { props } => Err(unreachable()),
        }
    } else {
        Err(not_a_name())
    }
}

/// Declares `name`, which must be new; `tok` is the token of the name.
fn declare<'src>(entries: &mut Entries, name: &str, tok: Token<'src>) -> (r: Result<(), Error<'src>>)
    ensures
        match r {
            Ok(()) => lookup(old(entries)@, name@) is None && final(entries)@ == put(
                old(entries)@,
                name@,
                None,
            ),
            Err(e) => lookup(old(entries)@, name@) is Some && e@ == grammar::redefined(name@, Some(tok@))
                && final(entries)@ == old(entries)@,
        },
{
    match entries_get(entries, name) {
        Some(_) => Err(redefined(name, Some(tok))),
        None => {
            entries_insert(entries, String::from_str(name), None);
            Ok(())
        },
    }
}

/// Reads a structure literal that has no name and files it under the
/// name that the number of entries gives. An error leaves `strct` as it
/// was.
pub fn parse_anon_entry<'ln, 'src>(parser: &mut Parser<'ln, 'src>, strct: &mut Struct) -> (r: Result<
    (),
    Error<'src>,
>)
    requires
        old(parser).wf(),
    ensures
        final(parser).follows(old(parser)),
        match r {
            Ok(()) => yields(
                grammar::parse_anon_entry(old(parser).toks(), old(parser).pos(), old(strct)@),
                final(strct)@,
                final(parser).pos(),
            ) && final(parser).pos() > old(parser).pos() && final(parser).wf(),
            Err(e) => fails(
                grammar::parse_anon_entry(old(parser).toks(), old(parser).pos(), old(strct)@),
                e@,
            ) && final(strct)@ == old(strct)@,
        },
    decreases remaining(old(parser).toks(), old(parser).pos()), 4nat,
{
    if let Struct::Mapping { .. } = strct {
        return Err(entry_in_map(parser.cur()));
    }
    let st = match parse_struct(parser) {
        Ok(st) => st,
        Err(e) => {
            return Err(e);
        },
    };
    match strct {
        Struct::Object { entries, props } => {
            entries_insert(entries, anon_key(entries_len(entries)), Some(st));
            Ok(())
        },
        Struct::Table { entries } => {
            entries_insert(entries, anon_key(entries_len(entries)), Some(st));
            Ok(())
        },
        Struct::Mapping { props } => Err(unreachable()),
    }
}

/* Parse Structures */

/// Reads one item that begins with a name: the token after the name
/// selects the production.
fn parse_named_item<'ln, 'src>(parser: &mut Parser<'ln, 'src>, strct: &mut Struct) -> (r: Result<
    (),
    Error<'src>,
>)
    requires
        old(parser).wf(),
    ensures
        final(parser).follows(old(parser)),
        match r {
            Ok(()) => yields(
                grammar::parse_named_item(old(parser).toks(), old(parser).pos(), old(strct)@),
                final(strct)@,
                final(parser).pos(),
            ) && final(parser).pos() > old(parser).pos() && final(parser).wf(),
            Err(e) => fails(
                grammar::parse_named_item(old(parser).toks(), old(parser).pos(), old(strct)@),
                e@,
            ) && final(strct)@ == grammar::parse_named_item_left(
                old(parser).toks(),
                old(parser).pos(),
                old(strct)@,
            ),
        },
    decreases remaining(old(parser).toks(), old(parser).pos()), 5nat,
{
    let nxt = match parser.nxt_expect() {
        Ok(nxt) => nxt,
        Err(e) => {
            return Err(e);
        },
    };
    match nxt.val {
        TokVal::Comma => parse_multiple_binding(parser, strct),
        TokVal::Equals => parse_single_binding(parser, strct),
        TokVal::Plus => parse_compound_entry(parser, strct),
        TokVal::Break => parse_empty_entry(parser, strct),
        TokVal::Star => parse_wild_entry(parser, strct),
        TokVal::Dollar => parse_prop_entry(parser, strct),
        _ => parse_single_entry(parser, strct),
    }
}

/// Reads the items of a body into `strct`, up to a closing delimiter or
/// the end of the tokens. An error leaves in `strct` the items that
/// were read before it.
pub fn parse_inner<'ln, 'src>(parser: &mut Parser<'ln, 'src>, strct: &mut Struct) -> (r: Result<
    (),
    Error<'src>,
>)
    requires
        old(parser).wf(),
    ensures
        final(parser).follows(old(parser)),
        match r {
            Ok(()) => yields(
                grammar::parse_inner(old(parser).toks(), old(parser).pos(), old(strct)@),
                final(strct)@,
                final(parser).pos(),
            ) && final(parser).pos() >= old(parser).pos() && final(parser).wf(),
            Err(e) => fails(grammar::parse_inner(old(parser).toks(), old(parser).pos(), old(strct)@), e@)
                && final(strct)@ == grammar::parse_inner_left(
                old(parser).toks(),
                old(parser).pos(),
                old(strct)@,
            ),
        },
    decreases remaining(old(parser).toks(), old(parser).pos()), 6nat,
{
    let ghost goal = grammar::parse_inner(old(parser).toks(), old(parser).pos(), old(strct)@);
    let ghost left = grammar::parse_inner_left(old(parser).toks(), old(parser).pos(), old(strct)@);
    loop
        invariant
            parser.follows(old(parser)),
            parser.wf(),
            old(parser).pos() <= parser.pos(),
            goal == grammar::parse_inner(old(parser).toks(), old(parser).pos(), old(strct)@),
            goal == grammar::parse_inner(parser.toks(), parser.pos(), strct@),
            left == grammar::parse_inner_left(old(parser).toks(), old(parser).pos(), old(strct)@),
            left == grammar::parse_inner_left(parser.toks(), parser.pos(), strct@),
        decreases remaining(parser.toks(), parser.pos()),
    {
        let ghost before = parser.pos();
        parser.allow_break();
        proof {
            lemma_skip_breaks(parser.toks(), before, parser.pos(), strct@);
        }
        match parser.cur() {
            Some(tok) => match tok.val {
                TokVal::RBrace | TokVal::RBrack | TokVal::RBracePct => {
                    return Ok(());
                },
                TokVal::Name(name) => {
                    match parse_named_item(parser, strct) {
                        Ok(()) => {},
                        Err(e) => {
                            return Err(e);
                        },
                    }
                },
                _ => {
                    match parse_anon_entry(parser, strct) {
                        Ok(()) => {},
                        Err(e) => {
                            return Err(e);
                        },
                    }
                },
            },
            None => {
                return Ok(());
            },
        }
    }
}

/// Reads an object, `{ … }`.
pub fn parse_obj_struct<'ln, 'src>(parser: &mut Parser<'ln, 'src>) -> (r: Result<Struct, Error<'src>>)
    requires
        old(parser).wf(),
    ensures
        final(parser).follows(old(parser)),
        match r {
            Ok(s) => yields(
                grammar::parse_obj_struct(old(parser).toks(), old(parser).pos()),
                s@,
                final(parser).pos(),
            ) && final(parser).pos() > old(parser).pos() && final(parser).wf(),
            Err(e) => fails(grammar::parse_obj_struct(old(parser).toks(), old(parser).pos()), e@),
        },
    decreases remaining(old(parser).toks(), old(parser).pos()), 0nat,
{
    match parser.expect(Gate::LBrace, "'{'") {
        Ok(_) => {},
        Err(e) => {
            return Err(e);
        },
    }
    let mut obj = new_object();
    match parse_inner(parser, &mut obj) {
        Ok(()) => {},
        Err(e) => {
            return Err(e);
        },
    }
    match parser.expect(Gate::RBrace, "'}'") {
        Ok(_) => Ok(obj),
        Err(e) => Err(e),
    }
}

/// Reads a table, `[ … ]`.
pub fn parse_tbl_struct<'ln, 'src>(parser: &mut Parser<'ln, 'src>) -> (r: Result<Struct, Error<'src>>)
    requires
        old(parser).wf(),
    ensures
        final(parser).follows(old(parser)),
        match r {
            Ok(s) => yields(
                grammar::parse_tbl_struct(old(parser).toks(), old(parser).pos()),
                s@,
                final(parser).pos(),
            ) && final(parser).pos() > old(parser).pos() && final(parser).wf(),
            Err(e) => fails(grammar::parse_tbl_struct(old(parser).toks(), old(parser).pos()), e@),
        },
    decreases remaining(old(parser).toks(), old(parser).pos()), 0nat,
{
    match parser.expect(Gate::LBrack, "'['") {
        Ok(_) => {},
        Err(e) => {
            return Err(e);
        },
    }
    let mut tbl = new_table();
    match parse_inner(parser, &mut tbl) {
        Ok(()) => {},
        Err(e) => {
            return Err(e);
        },
    }
    match parser.expect(Gate::RBrack, "']'") {
        Ok(_) => Ok(tbl),
        Err(e) => Err(e),
    }
}

/// Reads a map, `{% … %}`.
pub fn parse_map_struct<'ln, 'src>(parser: &mut Parser<'ln, 'src>) -> (r: Result<Struct, Error<'src>>)
    requires
        old(parser).wf(),
    ensures
        final(parser).follows(old(parser)),
        match r {
            Ok(s) => yields(
                grammar::parse_map_struct(old(parser).toks(), old(parser).pos()),
                s@,
                final(parser).pos(),
            ) && final(parser).pos() > old(parser).pos() && final(parser).wf(),
            Err(e) => fails(grammar::parse_map_struct(old(parser).toks(), old(parser).pos()), e@),
        },
    decreases remaining(old(parser).toks(), old(parser).pos()), 0nat,
{
    match parser.expect(Gate::LBracePct, "'{%'") {
        Ok(_) => {},
        Err(e) => {
            return Err(e);
        },
    }
    let mut map = new_mapping();
    match parse_inner(parser, &mut map) {
        Ok(()) => {},
        Err(e) => {
            return Err(e);
        },
    }
    match parser.expect(Gate::RBracePct, "'%}'") {
        Ok(_) => Ok(map),
        Err(e) => Err(e),
    }
}

/// Reads a structure literal: the opening delimiter decides its kind.
/// Where no opening delimiter stands, the cursor stays where it is.
pub fn parse_struct<'ln, 'src>(parser: &mut Parser<'ln, 'src>) -> (r: Result<Struct, Error<'src>>)
    requires
        old(parser).wf(),
    ensures
        final(parser).follows(old(parser)),
        match r {
            Ok(s) => yields(
                grammar::parse_struct(old(parser).toks(), old(parser).pos()),
                s@,
                final(parser).pos(),
            ) && final(parser).pos() > old(parser).pos() && final(parser).wf(),
            Err(e) => fails(grammar::parse_struct(old(parser).toks(), old(parser).pos()), e@),
        },
        !grammar::opens_at(old(parser).toks(), old(parser).pos()) ==> r is Err && final(parser).pos()
            == old(parser).pos(),
    decreases remaining(old(parser).toks(), old(parser).pos()), 1nat,
{
    let tok = match parser.cur_expect() {
        Ok(tok) => tok,
        Err(e) => {
            return Err(e);
        },
    };
    match tok.val {
        TokVal::LBrace => parse_obj_struct(parser),
        TokVal::LBrack => parse_tbl_struct(parser),
        TokVal::LBracePct => parse_map_struct(parser),
        _ => Err(expected_struct(tok)),
    }
}

/// Parses the tokens of a source text into its root object.
///
/// The body of the root has no delimiters: its items are read up to the
/// end of the tokens. A closing delimiter in it is an error, as every
/// token is where a structure must begin and does not. The first error
/// ends the parse. There must be fewer tokens than the machine counts
/// to, so that the cursor can stand behind the last of them.
pub fn parse<'ln, 'src>(input: &'src str, lines: &'ln Lines, tokens: Vec<Token<'src>>) -> (r: Result<
    Struct,
    Error<'src>,
>)
    requires
        tokens@.len() < usize::MAX,
    ensures
        match r {
            Ok(s) => grammar::parse(tokens_view(tokens@)) == Ok::<_, ErrorView>(s@) && s@ is Object
                && well_formed(s@),
            Err(e) => fails(grammar::parse(tokens_view(tokens@)), e@),
        },
{
    proof {
        lemma_parse(tokens_view(tokens@));
        lemma_inner_kind(tokens_view(tokens@), 0, grammar::empty_object());
    }
    let mut parser = Parser::new(input, lines, tokens);
    let mut root = new_object();
    match parse_inner(&mut parser, &mut root) {
        Ok(()) => match parser.cur() {
            None => Ok(root),
            Some(tok) => Err(expected_struct(tok)),
        },
        Err(e) => Err(e),
    }
}

} // verus!
