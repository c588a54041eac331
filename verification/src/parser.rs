//! The parser: from a source text to its tree and table.
use vstd::prelude::*;
use crate::ast::{
    call_of, entries_view, field_entry, id_count, ident_of, lemma_entries_view_push,
    lemma_nodes_view_push, lemma_views_of_none, list_of, literal_of, map_entry, node_of,
    nodes_view, select_of, struct_of, unique_ids, Entry, EntryKey, EntryKeyView, EntryView, Expr,
    IdedExpr, NodeView,
};
use crate::doubles::lemma_doubles_suffice;
use crate::error::{Expected, ParseError};
use crate::grammar::{
    binary, binary_rest, called, dotted_text, double_literals, double_missing, double_texts,
    elements, entries,
    expr, kind_at, literal, member, member_rest, message_head, more_elements, more_entries, numbered, operator,
    parse_gives, parse_text, primary, qualified_name, qualified_parts, takes_sign, text_at,
    unary, unexpected, Entered, Listed, ParseOutputView, Parsed, Source, State,
};
use crate::ids::IdAllocator;
use crate::lexer::{tokenize, tokens_wf};
use crate::literal::{integer, quoted};
use crate::macros::{expand_macro, one_node, three_nodes, two_nodes};
use crate::numbering::lemma_parsed_ids_are_unique;
use crate::reference::Val;
use crate::references::ExpressionReferences;
use crate::steps::{
    lemma_binary, lemma_binary_rest, lemma_elements, lemma_entries, lemma_expr, lemma_member,
    lemma_member_rest, lemma_more_elements, lemma_more_entries, lemma_primary_call,
    lemma_primary_grouped, lemma_primary_list, lemma_primary_literal, lemma_primary_map,
    lemma_primary_message, lemma_primary_name, lemma_unary,
};
use crate::text::{chars_of, string_of};
use crate::token::{Token, TokenKind};

verus! {

/// What a parse gives: the tree and the table.
pub struct ParseResult {
    pub expr: IdedExpr,
    pub references: ExpressionReferences,
}

impl View for ParseResult {
    type V = ParseOutputView;

    open spec fn view(&self) -> ParseOutputView {
        ParseOutputView { expr: self.expr@, references: self.references@ }
    }
}

struct Parser<'a> {
    chars: &'a Vec<char>,
    tokens: &'a Vec<Token>,
    doubles: &'a Vec<u64>,
    pos: usize,
    doubles_used: usize,
    ids: IdAllocator,
    refs: ExpressionReferences,
}

spec fn target_view(target: Option<IdedExpr>) -> Option<NodeView> {
    match target {
        Some(t) => Some(t@),
        None => None,
    }
}

/// Whether a step of the parser did what the grammar says: it went on from
/// `before` to `after` over the same source, and gave the node that the
/// grammar gives for the tokens from `start` on, or the same error.
spec fn agreed<'a>(
    before: Parser<'a>,
    after: Parser<'a>,
    start: int,
    r: Result<IdedExpr, ParseError>,
    model: Result<Parsed, ParseError>,
) -> bool {
    match r {
        Ok(e) => {
            &&& after.wf()
            &&& after.src() == before.src()
            &&& start <= before.pos <= after.pos
            &&& model == Ok::<Parsed, ParseError>(
                Parsed { node: e@, used: (after.pos - start) as nat, state: after.state() },
            )
        },
        Err(err) => model == Err::<Parsed, ParseError>(err),
    }
}

/// The same for a step that gives a sequence of nodes.
spec fn listed<'a>(
    before: Parser<'a>,
    after: Parser<'a>,
    start: int,
    r: Result<Vec<IdedExpr>, ParseError>,
    model: Result<Listed, ParseError>,
) -> bool {
    match r {
        Ok(v) => {
            &&& after.wf()
            &&& after.src() == before.src()
            &&& start <= before.pos <= after.pos
            &&& model == Ok::<Listed, ParseError>(
                Listed { nodes: nodes_view(v@), used: (after.pos - start) as nat, state: after.state() },
            )
        },
        Err(err) => model == Err::<Listed, ParseError>(err),
    }
}

/// The same for a step that gives a sequence of entries.
spec fn entered<'a>(
    before: Parser<'a>,
    after: Parser<'a>,
    start: int,
    r: Result<Vec<Entry>, ParseError>,
    model: Result<Entered, ParseError>,
) -> bool {
    match r {
        Ok(v) => {
            &&& after.wf()
            &&& after.src() == before.src()
            &&& start <= before.pos <= after.pos
            &&& model == Ok::<Entered, ParseError>(
                Entered { entries: entries_view(v@), used: (after.pos - start) as nat, state: after.state() },
            )
        },
        Err(err) => model == Err::<Entered, ParseError>(err),
    }
}

fn sign_taker(kind: TokenKind) -> (b: bool)
    ensures
        b == takes_sign(kind),
{
    kind == TokenKind::Int || kind == TokenKind::Float
}

fn operator_of(kind: TokenKind) -> (r: Option<(u8, &'static str)>)
    ensures
        match r {
            Some((strength, name)) => operator(kind) == Some((strength as int, name@)),
            None => operator(kind) is None,
        },
{
    match kind {
        TokenKind::OrOr => Some((1, "_||_")),
        TokenKind::AndAnd => Some((2, "_&&_")),
        TokenKind::EqEq => Some((3, "_==_")),
        TokenKind::NotEq => Some((3, "_!=_")),
        TokenKind::Less => Some((3, "_<_")),
        TokenKind::LessEq => Some((3, "_<=_")),
        TokenKind::Greater => Some((3, "_>_")),
        TokenKind::GreaterEq => Some((3, "_>=_")),
        TokenKind::In => Some((3, "@in")),
        TokenKind::Plus => Some((4, "_+_")),
        TokenKind::Minus => Some((4, "_-_")),
        TokenKind::Star => Some((5, "_*_")),
        TokenKind::Slash => Some((5, "_/_")),
        TokenKind::Percent => Some((5, "_%_")),
        _ => None,
    }
}

impl<'a> Parser<'a> {
    spec fn src(&self) -> Source {
        Source { chars: self.chars@, tokens: self.tokens@, doubles: self.doubles@ }
    }

    spec fn state(&self) -> State {
        State { issued: self.ids.issued(), refs: self.refs@, doubles_used: self.doubles_used as nat }
    }

    spec fn wf(&self) -> bool {
        &&& tokens_wf(self.chars@, self.tokens@)
        &&& self.pos < self.tokens.len()
        &&& self.doubles_used <= self.doubles.len()
    }

    /// The same parser `n` tokens further on.
    spec fn moved(&self, after: &Self, n: int) -> bool {
        &&& after.wf()
        &&& after.src() == self.src()
        &&& after.state() == self.state()
        &&& after.pos == self.pos + n
    }

    fn kind(&self) -> (k: TokenKind)
        requires
            self.wf(),
        ensures
            k == kind_at(self.src(), self.pos as int),
    {
        self.tokens[self.pos].kind
    }

    fn kind_ahead(&self, n: usize) -> (k: TokenKind)
        requires
            self.wf(),
        ensures
            k == kind_at(self.src(), self.pos + n),
    {
        if self.tokens.len() - self.pos > n {
            self.tokens[self.pos + n].kind
        } else {
            TokenKind::Eof
        }
    }

    fn skip(&mut self, n: usize)
        requires
            old(self).wf(),
            n >= 1,
            kind_at(old(self).src(), old(self).pos + n - 1) != TokenKind::Eof,
        ensures
            old(self).moved(final(self), n as int),
    {
        proof {
            reveal(tokens_wf);
        }
        self.pos = self.pos + n;
    }

    fn jump(&mut self, n: usize)
        requires
            old(self).wf(),
            old(self).pos + n < old(self).tokens.len(),
        ensures
            old(self).moved(final(self), n as int),
    {
        self.pos = self.pos + n;
    }

    /// Takes the next bit pattern for the double literal where the parser
    /// stands, if there is one, and goes on behind the literal.
    fn take_double(&mut self) -> (r: Option<u64>)
        requires
            old(self).wf(),
            kind_at(old(self).src(), old(self).pos as int) == TokenKind::Float,
        ensures
            match r {
                Some(bits) => {
                    &&& old(self).doubles_used < old(self).doubles.len()
                    &&& bits == old(self).doubles[old(self).doubles_used as int]
                    &&& final(self).wf()
                    &&& final(self).src() == old(self).src()
                    &&& final(self).pos == old(self).pos + 1
                    &&& final(self).doubles_used == old(self).doubles_used + 1
                    &&& final(self).ids.issued() == old(self).ids.issued()
                    &&& final(self).refs@ == old(self).refs@
                },
                None => {
                    &&& old(self).doubles_used >= old(self).doubles.len()
                    &&& *final(self) == *old(self)
                },
            },
    {
        proof {
            reveal(tokens_wf);
        }
        if self.doubles_used < self.doubles.len() {
            let bits = self.doubles[self.doubles_used];
            self.doubles_used = self.doubles_used + 1;
            self.pos = self.pos + 1;
            Some(bits)
        } else {
            None
        }
    }

    fn unexpected_here(&self, expected: Expected) -> (e: ParseError)
        requires
            self.wf(),
        ensures
            e == unexpected(self.src(), self.pos as int, expected),
    {
        let t = self.tokens[self.pos];
        ParseError::Syntax { position: t.start, expected, found: t.kind }
    }

    fn text(&self, n: usize) -> (s: String)
        requires
            self.wf(),
            self.pos + n < self.tokens.len(),
        ensures
            s@ == text_at(self.src(), self.pos + n),
    {
        proof {
            reveal(tokens_wf);
        }
        let t = self.tokens[self.pos + n];
        string_of(self.chars, t.start, t.end)
    }

    /// A node of this shape under the next identifier.
    fn node(&mut self, shape: Expr) -> (r: Result<IdedExpr, ParseError>)
        requires
            old(self).wf(),
        ensures
            match r {
                Ok(e) => {
                    &&& numbered(old(self).state(), shape@) == Ok::<(NodeView, State), ParseError>(
                        (e@, final(self).state()),
                    )
                    &&& final(self).wf()
                    &&& final(self).src() == old(self).src()
                    &&& final(self).pos == old(self).pos
                },
                Err(err) => numbered(old(self).state(), shape@) == Err::<(NodeView, State), ParseError>(err),
            },
    {
        if self.ids.remaining() == 0 {
            return Err(ParseError::TooManyNodes);
        }
        let id = self.ids.next_id();
        Ok(node_of(id, shape))
    }

    /// A call node under the next identifier, as the macro rewriting leaves
    /// it.
    fn call(
        &mut self,
        target: Option<IdedExpr>,
        function: String,
        args: Vec<IdedExpr>,
    ) -> (r: Result<IdedExpr, ParseError>)
        requires
            old(self).wf(),
        ensures
            match r {
                Ok(e) => {
                    &&& called(old(self).state(), target_view(target), function@, nodes_view(args@)) == Ok::<
                        (NodeView, State),
                        ParseError,
                    >((e@, final(self).state()))
                    &&& final(self).wf()
                    &&& final(self).src() == old(self).src()
                    &&& final(self).pos == old(self).pos
                },
                Err(err) => called(old(self).state(), target_view(target), function@, nodes_view(args@))
                    == Err::<(NodeView, State), ParseError>(err),
            },
    {
        proof {
            reveal(called);
        }
        if self.ids.remaining() == 0 {
            return Err(ParseError::TooManyNodes);
        }
        let id = self.ids.next_id();
        let shape = call_of(target, function, args);
        let node = node_of(id, shape);
        expand_macro(node, &mut self.ids, &mut self.refs)
    }

    fn unexpected_ahead(&self, n: usize, expected: Expected) -> (e: ParseError)
        requires
            self.wf(),
        ensures
            e == unexpected(self.src(), self.pos + n, expected),
    {
        if self.tokens.len() - self.pos > n {
            let t = self.tokens[self.pos + n];
            ParseError::Syntax { position: t.start, expected, found: t.kind }
        } else {
            ParseError::Syntax { position: 0, expected, found: TokenKind::Eof }
        }
    }

    /// The literal at the token where the parser stands.
    fn literal(&mut self, negative: bool) -> (r: Result<IdedExpr, ParseError>)
        requires
            old(self).wf(),
        ensures
            match r {
                Ok(e) => {
                    &&& literal(old(self).src(), old(self).pos as int, old(self).state(), negative) == Ok::<
                        (NodeView, State),
                        ParseError,
                    >((e@, final(self).state()))
                    &&& final(self).wf()
                    &&& final(self).src() == old(self).src()
                    &&& final(self).pos == old(self).pos + 1
                },
                Err(err) => literal(old(self).src(), old(self).pos as int, old(self).state(), negative)
                    == Err::<(NodeView, State), ParseError>(err),
            },
    {
        proof {
            reveal(tokens_wf);
            reveal(literal);
        }
        let t = self.tokens[self.pos];
        let value = match t.kind {
            TokenKind::Float => match self.take_double() {
                Some(bits) => Val::Double(
                    if negative {
                        bits ^ 0x8000_0000_0000_0000
                    } else {
                        bits
                    },
                ),
                None => {
                    return Err(self.unexpected_here(Expected::DoubleBits));
                },
            },
            TokenKind::Int | TokenKind::UInt => match integer(self.chars, t, negative) {
                Ok(v) => {
                    self.skip(1);
                    v
                },
                Err(e) => {
                    return Err(e);
                },
            },
            TokenKind::Str | TokenKind::Bytes => match quoted(self.chars, t) {
                Ok(v) => {
                    self.skip(1);
                    v
                },
                Err(e) => {
                    return Err(e);
                },
            },
            TokenKind::True => {
                self.skip(1);
                Val::Boolean(true)
            },
            TokenKind::False => {
                self.skip(1);
                Val::Boolean(false)
            },
            TokenKind::Null => {
                self.skip(1);
                Val::Null
            },
            _ => {
                return Err(self.unexpected_here(Expected::Expression));
            },
        };
        self.node(literal_of(value))
    }

    /// How many further names the dotted name has that starts where the
    /// parser stands.
    fn dotted_parts(&self) -> (parts: usize)
        requires
            self.wf(),
        ensures
            parts == qualified_parts(self.src(), self.pos as int),
            self.pos + parts + parts < self.tokens.len(),
    {
        proof {
            reveal(tokens_wf);
        }
        let mut parts: usize = 0;
        let mut at: usize = self.pos;
        while self.tokens.len() - at > 2 && self.tokens[at + 1].kind == TokenKind::Dot && self.tokens[at
            + 2].kind == TokenKind::Ident
            invariant
                self.wf(),
                at == self.pos + parts + parts,
                at < self.tokens.len(),
                qualified_parts(self.src(), self.pos as int) == parts + qualified_parts(
                    self.src(),
                    at as int,
                ),
            decreases self.tokens.len() - at,
        {
            parts = parts + 1;
            at = at + 2;
        }
        parts
    }

    /// Whether a message literal starts where the parser stands; if so,
    /// its name and the number of tokens before its first field.
    fn message_ahead(&self) -> (r: Option<(String, usize)>)
        requires
            self.wf(),
        ensures
            match r {
                Some((name, head)) => {
                    &&& message_head(self.src(), self.pos as int) == Some(head as nat)
                    &&& name@ == dotted_text(self.src(), self.pos as int)
                    &&& head >= 2
                    &&& self.pos + head < self.tokens.len()
                },
                None => message_head(self.src(), self.pos as int) is None,
            },
    {
        proof {
            reveal(message_head);
            reveal(dotted_text);
            reveal(tokens_wf);
        }
        let parts = self.dotted_parts();
        if self.kind_ahead(parts + parts + 1) == TokenKind::LBrace {
            Some((self.dotted_name(parts), parts + parts + 2))
        } else {
            None
        }
    }

    /// The dotted name that starts where the parser stands.
    fn dotted_name(&self, parts: usize) -> (name: String)
        requires
            self.wf(),
            self.pos + parts + parts < self.tokens.len(),
        ensures
            name@ == qualified_name(self.src(), self.pos as int, parts as nat),
    {
        let mut name = self.text(0);
        let mut k: usize = 0;
        while k < parts
            invariant
                self.wf(),
                k <= parts,
                self.pos + parts + parts < self.tokens.len(),
                name@ == qualified_name(self.src(), self.pos as int, k as nat),
            decreases parts - k,
        {
            k = k + 1;
            let part = self.text(k + k);
            name.push('.');
            name.append(part.as_str());
            assert(name@ =~= qualified_name(self.src(), self.pos as int, k as nat));
        }
        name
    }

    /// A call without a receiver.
    fn global_call(&mut self) -> (r: Result<IdedExpr, ParseError>)
        requires
            old(self).wf(),
            kind_at(old(self).src(), old(self).pos as int) == TokenKind::Ident,
            kind_at(old(self).src(), old(self).pos + 1) == TokenKind::LParen,
        ensures
            agreed(
                *old(self),
                *final(self),
                old(self).pos as int,
                r,
                primary(old(self).src(), old(self).pos as int, old(self).state()),
            ),
        decreases old(self).tokens.len() - old(self).pos, 1int,
    {
        proof {
            lemma_primary_call(self.src(), self.pos as int, self.state());
        }
        let name = self.text(0);
        self.skip(2);
        let args = match self.elements(TokenKind::RParen, false) {
            Ok(a) => a,
            Err(e) => {
                return Err(e);
            },
        };
        self.call(None, name, args)
    }

    /// A name by itself.
    fn name(&mut self) -> (r: Result<IdedExpr, ParseError>)
        requires
            old(self).wf(),
            kind_at(old(self).src(), old(self).pos as int) == TokenKind::Ident,
            kind_at(old(self).src(), old(self).pos + 1) != TokenKind::LParen,
            message_head(old(self).src(), old(self).pos as int) is None,
        ensures
            agreed(
                *old(self),
                *final(self),
                old(self).pos as int,
                r,
                primary(old(self).src(), old(self).pos as int, old(self).state()),
            ),
    {
        proof {
            lemma_primary_name(self.src(), self.pos as int, self.state());
        }
        let name = self.text(0);
        self.skip(1);
        self.node(ident_of(name))
    }

    /// What starts with a name: a call, a message literal, or the name
    /// itself.
    fn named(&mut self) -> (r: Result<IdedExpr, ParseError>)
        requires
            old(self).wf(),
            kind_at(old(self).src(), old(self).pos as int) == TokenKind::Ident,
        ensures
            agreed(
                *old(self),
                *final(self),
                old(self).pos as int,
                r,
                primary(old(self).src(), old(self).pos as int, old(self).state()),
            ),
        decreases old(self).tokens.len() - old(self).pos, 2int,
    {
        if self.kind_ahead(1) == TokenKind::LParen {
            self.global_call()
        } else {
            match self.message_ahead() {
                Some((name, head)) => self.message(name, head),
                None => self.name(),
            }
        }
    }

    /// A message literal: a dotted name and the fields in braces.
    fn message(&mut self, name: String, head: usize) -> (r: Result<IdedExpr, ParseError>)
        requires
            old(self).wf(),
            name@ == dotted_text(old(self).src(), old(self).pos as int),
            kind_at(old(self).src(), old(self).pos as int) == TokenKind::Ident,
            kind_at(old(self).src(), old(self).pos + 1) != TokenKind::LParen,
            message_head(old(self).src(), old(self).pos as int) == Some(head as nat),
            head >= 2,
            old(self).pos + head < old(self).tokens.len(),
        ensures
            agreed(
                *old(self),
                *final(self),
                old(self).pos as int,
                r,
                primary(old(self).src(), old(self).pos as int, old(self).state()),
            ),
        decreases old(self).tokens.len() - old(self).pos, 1int,
    {
        proof {
            lemma_primary_message(self.src(), self.pos as int, self.state());
        }
        self.jump(head);
        let fields = match self.entries(true) {
            Ok(f) => f,
            Err(e) => {
                return Err(e);
            },
        };
        let shape = struct_of(fields, Some(name));
        self.node(shape)
    }

    /// An expression in round brackets.
    fn grouped(&mut self) -> (r: Result<IdedExpr, ParseError>)
        requires
            old(self).wf(),
            kind_at(old(self).src(), old(self).pos as int) == TokenKind::LParen,
        ensures
            agreed(
                *old(self),
                *final(self),
                old(self).pos as int,
                r,
                primary(old(self).src(), old(self).pos as int, old(self).state()),
            ),
        decreases old(self).tokens.len() - old(self).pos, 2int,
    {
        proof {
            lemma_primary_grouped(self.src(), self.pos as int, self.state());
        }
        self.skip(1);
        let e = match self.expr() {
            Ok(e) => e,
            Err(e) => {
                return Err(e);
            },
        };
        if self.kind() != TokenKind::RParen {
            return Err(self.unexpected_here(Expected::Token(TokenKind::RParen)));
        }
        self.skip(1);
        Ok(e)
    }

    /// A list literal.
    fn list(&mut self) -> (r: Result<IdedExpr, ParseError>)
        requires
            old(self).wf(),
            kind_at(old(self).src(), old(self).pos as int) == TokenKind::LBracket,
        ensures
            agreed(
                *old(self),
                *final(self),
                old(self).pos as int,
                r,
                primary(old(self).src(), old(self).pos as int, old(self).state()),
            ),
        decreases old(self).tokens.len() - old(self).pos, 2int,
    {
        proof {
            lemma_primary_list(self.src(), self.pos as int, self.state());
        }
        self.skip(1);
        let items = match self.elements(TokenKind::RBracket, true) {
            Ok(a) => a,
            Err(e) => {
                return Err(e);
            },
        };
        let shape = list_of(items);
        self.node(shape)
    }

    /// A map literal.
    fn map(&mut self) -> (r: Result<IdedExpr, ParseError>)
        requires
            old(self).wf(),
            kind_at(old(self).src(), old(self).pos as int) == TokenKind::LBrace,
        ensures
            agreed(
                *old(self),
                *final(self),
                old(self).pos as int,
                r,
                primary(old(self).src(), old(self).pos as int, old(self).state()),
            ),
        decreases old(self).tokens.len() - old(self).pos, 2int,
    {
        proof {
            lemma_primary_map(self.src(), self.pos as int, self.state());
        }
        self.skip(1);
        let items = match self.entries(false) {
            Ok(a) => a,
            Err(e) => {
                return Err(e);
            },
        };
        let shape = struct_of(items, None);
        self.node(shape)
    }

    fn primary(&mut self) -> (r: Result<IdedExpr, ParseError>)
        requires
            old(self).wf(),
        ensures
            agreed(
                *old(self),
                *final(self),
                old(self).pos as int,
                r,
                primary(old(self).src(), old(self).pos as int, old(self).state()),
            ),
        decreases old(self).tokens.len() - old(self).pos, 3int,
    {
        proof {
            if kind_at(self.src(), self.pos as int) != TokenKind::Ident && kind_at(
                self.src(),
                self.pos as int,
            ) != TokenKind::LParen && kind_at(self.src(), self.pos as int) != TokenKind::LBracket
                && kind_at(self.src(), self.pos as int) != TokenKind::LBrace {
                lemma_primary_literal(self.src(), self.pos as int, self.state());
            }
        }
        match self.kind() {
            TokenKind::Ident => self.named(),
            TokenKind::LParen => self.grouped(),
            TokenKind::LBracket => self.list(),
            TokenKind::LBrace => self.map(),
            TokenKind::Minus => {
                if sign_taker(self.kind_ahead(1)) {
                    self.skip(1);
                    match self.literal(true) {
                        Ok(e) => Ok(e),
                        Err(e) => Err(e),
                    }
                } else {
                    Err(self.unexpected_here(Expected::Expression))
                }
            },
            _ => self.literal(false),
        }
    }

    fn member(&mut self) -> (r: Result<IdedExpr, ParseError>)
        requires
            old(self).wf(),
        ensures
            agreed(
                *old(self),
                *final(self),
                old(self).pos as int,
                r,
                member(old(self).src(), old(self).pos as int, old(self).state()),
            ),
        decreases old(self).tokens.len() - old(self).pos, 5int,
    {
        proof {
            lemma_member(self.src(), self.pos as int, self.state());
        }
        let ghost start = self.pos as int;
        let ghost src = self.src();
        let ghost goal = member(src, start, self.state());
        let mut operand = match self.primary() {
            Ok(p) => p,
            Err(e) => {
                return Err(e);
            },
        };
        loop
            invariant
                self.wf(),
                self.src() == src,
                src == old(self).src(),
                start == old(self).pos,
                start <= self.pos,
                goal == member(src, start, old(self).state()),
                goal == member_rest(
                    src,
                    start,
                    Parsed { node: operand@, used: (self.pos - start) as nat, state: self.state() },
                ),
            decreases self.tokens.len() - self.pos,
        {
            proof {
                lemma_member_rest(
                    src,
                    start,
                    Parsed { node: operand@, used: (self.pos - start) as nat, state: self.state() },
                );
            }
            let k = self.kind();
            if k == TokenKind::Dot {
                if self.kind_ahead(1) != TokenKind::Ident {
                    return Err(self.unexpected_ahead(1, Expected::Token(TokenKind::Ident)));
                }
                let name = self.text(1);
                if self.kind_ahead(2) == TokenKind::LParen {
                    self.skip(3);
                    let args = match self.elements(TokenKind::RParen, false) {
                        Ok(a) => a,
                        Err(e) => {
                            return Err(e);
                        },
                    };
                    operand = match self.call(Some(operand), name, args) {
                        Ok(e) => e,
                        Err(e) => {
                            return Err(e);
                        },
                    };
                } else {
                    self.skip(2);
                    let shape = select_of(operand, name, false);
                    operand = match self.node(shape) {
                        Ok(e) => e,
                        Err(e) => {
                            return Err(e);
                        },
                    };
                }
            } else if k == TokenKind::LBracket {
                self.skip(1);
                let index = match self.expr() {
                    Ok(e) => e,
                    Err(e) => {
                        return Err(e);
                    },
                };
                if self.kind() != TokenKind::RBracket {
                    return Err(self.unexpected_here(Expected::Token(TokenKind::RBracket)));
                }
                self.skip(1);
                operand = match self.call(None, String::from_str("_[_]"), two_nodes(operand, index)) {
                    Ok(e) => e,
                    Err(e) => {
                        return Err(e);
                    },
                };
            } else {
                return Ok(operand);
            }
        }
    }

    fn unary(&mut self) -> (r: Result<IdedExpr, ParseError>)
        requires
            old(self).wf(),
        ensures
            agreed(
                *old(self),
                *final(self),
                old(self).pos as int,
                r,
                unary(old(self).src(), old(self).pos as int, old(self).state()),
            ),
        decreases old(self).tokens.len() - old(self).pos, 6int,
    {
        proof {
            lemma_unary(self.src(), self.pos as int, self.state());
        }
        let k = self.kind();
        if k == TokenKind::Bang || (k == TokenKind::Minus && !sign_taker(self.kind_ahead(1))) {
            self.skip(1);
            let x = match self.unary() {
                Ok(x) => x,
                Err(e) => {
                    return Err(e);
                },
            };
            let name = if k == TokenKind::Bang {
                "!_"
            } else {
                "-_"
            };
            self.call(None, String::from_str(name), one_node(x))
        } else {
            self.member()
        }
    }

    fn binary(&mut self, level: u8) -> (r: Result<IdedExpr, ParseError>)
        requires
            old(self).wf(),
            1 <= level <= 6,
        ensures
            agreed(
                *old(self),
                *final(self),
                old(self).pos as int,
                r,
                binary(old(self).src(), old(self).pos as int, old(self).state(), level as int),
            ),
        decreases old(self).tokens.len() - old(self).pos,
            (if level <= 5 {
                18 - 2 * level
            } else {
                7int
            }),
    {
        proof {
            lemma_binary(self.src(), self.pos as int, self.state(), level as int);
        }
        if level > 5 {
            return self.unary();
        }
        let ghost start = self.pos as int;
        let ghost src = self.src();
        let ghost goal = binary(src, start, self.state(), level as int);
        let mut lhs = match self.binary(level + 1) {
            Ok(l) => l,
            Err(e) => {
                return Err(e);
            },
        };
        loop
            invariant
                self.wf(),
                self.src() == src,
                src == old(self).src(),
                start == old(self).pos,
                start <= self.pos,
                1 <= level <= 5,
                goal == binary(src, start, old(self).state(), level as int),
                goal == binary_rest(
                    src,
                    start,
                    Parsed { node: lhs@, used: (self.pos - start) as nat, state: self.state() },
                    level as int,
                ),
            decreases self.tokens.len() - self.pos,
        {
            proof {
                lemma_binary_rest(
                    src,
                    start,
                    Parsed { node: lhs@, used: (self.pos - start) as nat, state: self.state() },
                    level as int,
                );
            }
            let (strength, name) = match operator_of(self.kind()) {
                Some(found) => found,
                None => {
                    return Ok(lhs);
                },
            };
            if strength != level {
                return Ok(lhs);
            }
            self.skip(1);
            let rhs = match self.binary(level + 1) {
                Ok(r) => r,
                Err(e) => {
                    return Err(e);
                },
            };
            lhs = match self.call(None, String::from_str(name), two_nodes(lhs, rhs)) {
                Ok(e) => e,
                Err(e) => {
                    return Err(e);
                },
            };
        }
    }

    fn expr(&mut self) -> (r: Result<IdedExpr, ParseError>)
        requires
            old(self).wf(),
        ensures
            agreed(
                *old(self),
                *final(self),
                old(self).pos as int,
                r,
                expr(old(self).src(), old(self).pos as int, old(self).state()),
            ),
        decreases old(self).tokens.len() - old(self).pos, 20int,
    {
        proof {
            lemma_expr(self.src(), self.pos as int, self.state());
        }
        let condition = match self.binary(1) {
            Ok(c) => c,
            Err(e) => {
                return Err(e);
            },
        };
        if self.kind() != TokenKind::Question {
            return Ok(condition);
        }
        self.skip(1);
        let then = match self.binary(1) {
            Ok(t) => t,
            Err(e) => {
                return Err(e);
            },
        };
        if self.kind() != TokenKind::Colon {
            return Err(self.unexpected_here(Expected::Token(TokenKind::Colon)));
        }
        self.skip(1);
        let other = match self.expr() {
            Ok(o) => o,
            Err(e) => {
                return Err(e);
            },
        };
        self.call(None, String::from_str("_?_:_"), three_nodes(condition, then, other))
    }

    fn elements(&mut self, close: TokenKind, trailing: bool) -> (r: Result<Vec<IdedExpr>, ParseError>)
        requires
            old(self).wf(),
            close != TokenKind::Eof,
        ensures
            listed(
                *old(self),
                *final(self),
                old(self).pos as int,
                r,
                elements(old(self).src(), old(self).pos as int, old(self).state(), close, trailing),
            ),
        decreases old(self).tokens.len() - old(self).pos, 22int,
    {
        proof {
            lemma_elements(self.src(), self.pos as int, self.state(), close, trailing);
        }
        let ghost start = self.pos as int;
        let ghost src = self.src();
        let ghost goal = elements(src, start, self.state(), close, trailing);
        let mut out: Vec<IdedExpr> = Vec::new();
        proof {
            lemma_views_of_none();
            assert(out@ =~= Seq::<IdedExpr>::empty());
        }
        if self.kind() == close {
            self.skip(1);
            return Ok(out);
        }
        loop
            invariant
                self.wf(),
                self.src() == src,
                src == old(self).src(),
                start == old(self).pos,
                start <= self.pos,
                close != TokenKind::Eof,
                goal == elements(src, start, old(self).state(), close, trailing),
                goal == more_elements(
                    src,
                    start,
                    Listed {
                        nodes: nodes_view(out@),
                        used: (self.pos - start) as nat,
                        state: self.state(),
                    },
                    close,
                    trailing,
                ),
            decreases self.tokens.len() - self.pos,
        {
            proof {
                lemma_more_elements(
                    src,
                    start,
                    Listed {
                        nodes: nodes_view(out@),
                        used: (self.pos - start) as nat,
                        state: self.state(),
                    },
                    close,
                    trailing,
                );
            }
            let e = match self.expr() {
                Ok(e) => e,
                Err(e) => {
                    return Err(e);
                },
            };
            proof {
                lemma_nodes_view_push(out@, e);
            }
            out.push(e);
            let k = self.kind();
            if k == close {
                self.skip(1);
                return Ok(out);
            }
            if k != TokenKind::Comma {
                return Err(self.unexpected_here(Expected::Token(close)));
            }
            if trailing && self.kind_ahead(1) == close {
                self.skip(2);
                return Ok(out);
            }
            self.skip(1);
        }
    }

    fn entries(&mut self, fields: bool) -> (r: Result<Vec<Entry>, ParseError>)
        requires
            old(self).wf(),
        ensures
            entered(
                *old(self),
                *final(self),
                old(self).pos as int,
                r,
                entries(old(self).src(), old(self).pos as int, old(self).state(), fields),
            ),
        decreases old(self).tokens.len() - old(self).pos, 23int,
    {
        proof {
            lemma_entries(self.src(), self.pos as int, self.state(), fields);
        }
        let ghost start = self.pos as int;
        let ghost src = self.src();
        let ghost goal = entries(src, start, self.state(), fields);
        let mut out: Vec<Entry> = Vec::new();
        proof {
            lemma_views_of_none();
            assert(out@ =~= Seq::<Entry>::empty());
        }
        if self.kind() == TokenKind::RBrace {
            self.skip(1);
            return Ok(out);
        }
        loop
            invariant
                self.wf(),
                self.src() == src,
                src == old(self).src(),
                start == old(self).pos,
                start <= self.pos,
                goal == entries(src, start, old(self).state(), fields),
                goal == more_entries(
                    src,
                    start,
                    Entered {
                        entries: entries_view(out@),
                        used: (self.pos - start) as nat,
                        state: self.state(),
                    },
                    fields,
                ),
            decreases self.tokens.len() - self.pos,
        {
            proof {
                lemma_more_entries(
                    src,
                    start,
                    Entered {
                        entries: entries_view(out@),
                        used: (self.pos - start) as nat,
                        state: self.state(),
                    },
                    fields,
                );
            }
            let ghost mut key_view: EntryKeyView = arbitrary();
            let key = if fields {
                if self.kind() != TokenKind::Ident {
                    return Err(self.unexpected_here(Expected::Token(TokenKind::Ident)));
                }
                let name = self.text(0);
                self.skip(1);
                proof {
                    key_view = EntryKeyView::Field(name@);
                }
                EntryKey::Field(name)
            } else {
                match self.expr() {
                    Ok(k) => {
                        proof {
                            key_view = EntryKeyView::Expr(k@);
                        }
                        EntryKey::Expr(k)
                    },
                    Err(e) => {
                        return Err(e);
                    },
                }
            };
            if self.kind() != TokenKind::Colon {
                return Err(self.unexpected_here(Expected::Token(TokenKind::Colon)));
            }
            self.skip(1);
            let value = match self.expr() {
                Ok(v) => v,
                Err(e) => {
                    return Err(e);
                },
            };
            let ghost value_view = value@;
            let entry = match key {
                EntryKey::Field(name) => field_entry(name, value),
                EntryKey::Expr(k) => map_entry(k, value),
            };
            proof {
                assert(entry@ == (EntryView { key: key_view, value: value_view }));
                lemma_entries_view_push(out@, entry);
            }
            out.push(entry);
            let k = self.kind();
            if k == TokenKind::RBrace {
                self.skip(1);
                return Ok(out);
            }
            if k != TokenKind::Comma {
                return Err(self.unexpected_here(Expected::Token(TokenKind::RBrace)));
            }
            if self.kind_ahead(1) == TokenKind::RBrace {
                self.skip(2);
                return Ok(out);
            }
            self.skip(1);
        }
    }
}

/// The models of some strings, in order.
pub open spec fn texts_view(v: Seq<String>) -> Seq<Seq<char>> {
    Seq::new(v.len(), |i: int| v[i]@)
}

/// The texts of the double literals of a source text, in order. A parse of
/// the text takes the bit pattern of each of them, in this order.
pub fn float_literals(source: &str) -> (r: Result<Vec<String>, ParseError>)
    ensures
        match r {
            Ok(texts) => double_literals(source@) == Ok::<Seq<Seq<char>>, ParseError>(texts_view(texts@)),
            Err(e) => double_literals(source@) == Err::<Seq<Seq<char>>, ParseError>(e),
        },
{
    let chars = chars_of(source);
    let tokens = match tokenize(&chars) {
        Ok(t) => t,
        Err(e) => {
            return Err(e);
        },
    };
    let mut out: Vec<String> = Vec::new();
    let mut i: usize = 0;
    proof {
        reveal(tokens_wf);
        assert(texts_view(out@) =~= double_texts(chars@, tokens@, 0));
    }
    while i < tokens.len()
        invariant
            i <= tokens.len(),
            forall|k: int| 0 <= k < tokens.len() ==> (#[trigger] tokens[k]).start <= tokens[k].end <= chars.len(),
            texts_view(out@) == double_texts(chars@, tokens@, i as int),
        decreases tokens.len() - i,
    {
        let t = tokens[i];
        if t.kind == TokenKind::Float {
            let text = string_of(&chars, t.start, t.end);
            let ghost before = out@;
            out.push(text);
            assert(texts_view(out@) =~= texts_view(before).push(text@));
        }
        i += 1;
    }
    Ok(out)
}

/// The tree of a source text and the table that goes with it. `doubles`
/// are the IEEE 754 bit patterns of the double literals of the text, in the
/// order of the literals; a literal for which none is there is refused.
///
/// The outcome is the one that [`parse_text`] gives, so the same text with
/// the same doubles always has the same tree and the same identifiers. In
/// the tree, no two nodes have the same identifier and none has zero. With
/// a bit pattern for each literal that [`float_literals`] lists, no literal
/// is refused for want of one; bit patterns beyond that are not looked at.
///
/// The parser goes one call deeper for each level of nesting in the text; a
/// caller that takes texts from elsewhere bounds their length first.
pub fn parse(source: &str, doubles: &Vec<u64>) -> (r: Result<ParseResult, ParseError>)
    ensures
        match r {
            Ok(out) => {
                &&& parse_gives(source@, doubles@, Ok(out@))
                &&& unique_ids(out.expr@)
                &&& id_count(out.expr@, 0) == 0
            },
            Err(e) => {
                &&& parse_gives(source@, doubles@, Err(e))
                &&& double_missing(e) ==> (double_literals(source@) matches Ok(texts) && texts.len()
                    > doubles.len())
            },
        },
{
    let chars = chars_of(source);
    let tokens = match tokenize(&chars) {
        Ok(t) => t,
        Err(e) => {
            return Err(e);
        },
    };
    let mut parser = Parser {
        chars: &chars,
        tokens: &tokens,
        doubles,
        pos: 0,
        doubles_used: 0,
        ids: IdAllocator::new(),
        refs: ExpressionReferences::new(),
    };
    proof {
        reveal(tokens_wf);
        if double_literals(source@) matches Ok(texts) && texts.len() <= doubles.len() {
            lemma_doubles_suffice(source@, doubles@);
        }
    }
    let e = match parser.expr() {
        Ok(e) => e,
        Err(e) => {
            return Err(e);
        },
    };
    if parser.kind() != TokenKind::Eof {
        return Err(parser.unexpected_here(Expected::Token(TokenKind::Eof)));
    }
    proof {
        lemma_parsed_ids_are_unique(source@, doubles@);
    }
    Ok(ParseResult { expr: e, references: parser.refs })
}

} // verus!
