use vstd::prelude::*;

verus! {

/// Kinds of tokens that the expression parser tells apart.
#[derive(Clone, Copy, Debug, PartialEq, Eq, Structural)]
pub enum Token {
    Eof,
    Eol,
    Semi,
    Colon,
    Comma,
    LeftParen,
    RightParen,
    RightBrace,
    Digit,
    Minus,
    Star,
    SingleQuote,
    DoubleQuote,
    LeftQuote,
    Ident,
    Other,
}

/// Kinds of syntax nodes that the expression parser closes.
#[derive(Clone, Copy, Debug, PartialEq, Eq, Structural)]
pub enum NodeKind {
    Name,
    LabelLiteral,
    StrLiteral,
    IntLiteral,
    CallExpr,
    Arg,
    Other,
}

/// One step of the tree that the parser builds: open a node, reopen the node
/// just closed so that a new node wraps it, close a node, or take a token.
#[derive(Clone, Copy, Debug, PartialEq, Eq, Structural)]
pub enum ParseEvent {
    Start,
    Restart,
    End(NodeKind),
    Bump(Token),
}

/// A token stream, the position reached in it, and the events emitted so far.
pub struct ParseContext {
    pub tokens: Vec<Token>,
    pub pos: usize,
    pub events: Vec<ParseEvent>,
}

pub open spec fn spec_at_end_of_stmt(t: Token) -> bool {
    t == Token::Eof || t == Token::Eol || t == Token::Semi || t == Token::Colon || t
        == Token::RightBrace
}

pub open spec fn spec_is_expr_first(t: Token) -> bool {
    t == Token::Digit || t == Token::SingleQuote || t == Token::DoubleQuote || t == Token::LeftQuote
        || t == Token::Ident || t == Token::LeftParen || t == Token::Minus || t == Token::Star
}

pub open spec fn spec_at_end_of_expr(t: Token) -> bool {
    spec_at_end_of_stmt(t) || t == Token::RightParen
}

pub open spec fn spec_is_arg_first(t: Token) -> bool {
    spec_is_expr_first(t) || t == Token::Comma
}

pub open spec fn spec_at_end_of_args(t: Token) -> bool {
    spec_at_end_of_expr(t) || spec_at_end_of_stmt(t)
}

impl Token {
    pub fn at_end_of_stmt(self) -> (r: bool)
        ensures
            r == spec_at_end_of_stmt(self),
    {
        match self {
            Token::Eof | Token::Eol | Token::Semi | Token::Colon | Token::RightBrace => true,
            _ => false,
        }
    }

    /// Whether an expression can start with this token.
    pub fn is_expr_first(self) -> (r: bool)
        ensures
            r == spec_is_expr_first(self),
    {
        match self {
            Token::Digit | Token::SingleQuote | Token::DoubleQuote | Token::LeftQuote | Token::Ident
            | Token::LeftParen | Token::Minus | Token::Star => true,
            _ => false,
        }
    }

    pub fn at_end_of_expr(self) -> (r: bool)
        ensures
            r == spec_at_end_of_expr(self),
    {
        self.at_end_of_stmt() || self == Token::RightParen
    }

    /// Whether an argument can start with this token (an empty argument starts
    /// with its comma).
    pub fn is_arg_first(self) -> (r: bool)
        ensures
            r == spec_is_arg_first(self),
    {
        self.is_expr_first() || self == Token::Comma
    }

    pub fn at_end_of_args(self) -> (r: bool)
        ensures
            r == spec_at_end_of_args(self),
    {
        self.at_end_of_expr() || self.at_end_of_stmt()
    }

    pub fn is_str_literal_first(self) -> (r: bool)
        ensures
            r == (self == Token::SingleQuote || self == Token::DoubleQuote || self
                == Token::LeftQuote),
    {
        self == Token::SingleQuote || self == Token::DoubleQuote || self == Token::LeftQuote
    }

    pub fn is_int_literal_first(self) -> (r: bool)
        ensures
            r == (self == Token::Digit || self == Token::Minus),
    {
        self == Token::Digit || self == Token::Minus
    }
}

/// Number of argument nodes closed in the events.
pub open spec fn arg_ends(e: Seq<ParseEvent>) -> int
    decreases e.len(),
{
    if e.len() == 0 {
        0
    } else {
        arg_ends(e.drop_last()) + if e.last() == ParseEvent::End(NodeKind::Arg) {
            1int
        } else {
            0int
        }
    }
}

/// The token at index `i`; `Eof` past the end.
pub open spec fn spec_token_at(tokens: Seq<Token>, i: int) -> Token {
    if 0 <= i < tokens.len() {
        tokens[i]
    } else {
        Token::Eof
    }
}

/// Whether `a` begins with all of `b`.
pub open spec fn events_extend(a: Seq<ParseEvent>, b: Seq<ParseEvent>) -> bool {
    b.len() <= a.len() && a.subrange(0, b.len() as int) == b
}

impl ParseContext {
    /// The token at the position; `Eof` past the end.
    pub open spec fn spec_next(&self) -> Token {
        if self.pos < self.tokens@.len() {
            self.tokens@[self.pos as int]
        } else {
            Token::Eof
        }
    }

    pub open spec fn wf(&self) -> bool {
        self.pos <= self.tokens@.len()
    }

    /// `new` continues `old`: the same tokens, a position no further back, and
    /// the events extended.
    pub open spec fn advanced(old: ParseContext, new: ParseContext) -> bool {
        &&& new.wf()
        &&& new.tokens == old.tokens
        &&& old.pos <= new.pos
        &&& events_extend(new.events@, old.events@)
    }

    pub fn new(tokens: Vec<Token>) -> (r: ParseContext)
        ensures
            r.wf(),
            r.tokens == tokens,
            r.pos == 0,
            r.events@.len() == 0,
    {
        ParseContext { tokens, pos: 0, events: Vec::new() }
    }

    pub fn next(&self) -> (r: Token)
        ensures
            r == self.spec_next(),
    {
        if self.pos < self.tokens.len() {
            self.tokens[self.pos]
        } else {
            Token::Eof
        }
    }

    pub fn at_eof(&self) -> (r: bool)
        ensures
            r == (self.pos >= self.tokens@.len()),
    {
        self.pos >= self.tokens.len()
    }

    fn push(&mut self, e: ParseEvent)
        ensures
            final(self).events@ == old(self).events@.push(e),
            final(self).tokens == old(self).tokens,
            final(self).pos == old(self).pos,
    {
        self.events.push(e);
    }

    /// Takes the current token, if any.
    pub fn bump(&mut self)
        requires
            old(self).wf(),
        ensures
            ParseContext::advanced(*old(self), *final(self)),
            final(self).pos == if old(self).pos < old(self).tokens@.len() {
                old(self).pos + 1
            } else {
                old(self).pos as int
            },
            final(self).events@ == if old(self).pos < old(self).tokens@.len() {
                old(self).events@.push(ParseEvent::Bump(old(self).spec_next()))
            } else {
                old(self).events@
            },
    {
        if self.pos < self.tokens.len() {
            let t = self.tokens[self.pos];
            self.push(ParseEvent::Bump(t));
            self.pos += 1;
        }
        assert(self.events@.subrange(0, old(self).events@.len() as int) =~= old(self).events@);
    }

    /// Takes the current token where it is `t`; says whether it did.
    pub fn eat(&mut self, t: Token) -> (r: bool)
        requires
            old(self).wf(),
        ensures
            ParseContext::advanced(*old(self), *final(self)),
            r == (t != Token::Eof && old(self).spec_next() == t),
            final(self).events@ == if r {
                old(self).events@.push(ParseEvent::Bump(t))
            } else {
                old(self).events@
            },
            final(self).pos == if r {
                old(self).pos + 1
            } else {
                old(self).pos as int
            },
    {
        if t != Token::Eof && self.next() == t {
            self.bump();
            true
        } else {
            assert(self.events@.subrange(0, self.events@.len() as int) =~= self.events@);
            false
        }
    }

    pub fn start_node(&mut self)
        requires
            old(self).wf(),
        ensures
            ParseContext::advanced(*old(self), *final(self)),
            final(self).pos == old(self).pos,
            final(self).events@ == old(self).events@.push(ParseEvent::Start),
    {
        self.push(ParseEvent::Start);
        assert(self.events@.subrange(0, old(self).events@.len() as int) =~= old(self).events@);
    }

    pub fn restart_node(&mut self)
        requires
            old(self).wf(),
        ensures
            ParseContext::advanced(*old(self), *final(self)),
            final(self).pos == old(self).pos,
            final(self).events@ == old(self).events@.push(ParseEvent::Restart),
    {
        self.push(ParseEvent::Restart);
        assert(self.events@.subrange(0, old(self).events@.len() as int) =~= old(self).events@);
    }

    pub fn end_node(&mut self, kind: NodeKind)
        requires
            old(self).wf(),
        ensures
            ParseContext::advanced(*old(self), *final(self)),
            final(self).pos == old(self).pos,
            final(self).events@ == old(self).events@.push(ParseEvent::End(kind)),
    {
        self.push(ParseEvent::End(kind));
        assert(self.events@.subrange(0, old(self).events@.len() as int) =~= old(self).events@);
    }
}

proof fn lemma_events_index(a: Seq<ParseEvent>, b: Seq<ParseEvent>, i: int)
    requires
        events_extend(a, b),
        0 <= i < b.len(),
    ensures
        a[i] == b[i],
{
    assert(a.subrange(0, b.len() as int)[i] == a[i]);
}

proof fn lemma_arg_ends_grow(a: Seq<ParseEvent>, b: Seq<ParseEvent>)
    requires
        events_extend(a, b),
    ensures
        arg_ends(a) >= arg_ends(b),
    decreases a.len(),
{
    if a.len() == b.len() {
        assert(a =~= b);
    } else {
        assert(a.drop_last().subrange(0, b.len() as int) =~= a.subrange(0, b.len() as int));
        lemma_arg_ends_grow(a.drop_last(), b);
    }
}

proof fn lemma_advanced_trans(a: ParseContext, b: ParseContext, c: ParseContext)
    requires
        ParseContext::advanced(a, b),
        ParseContext::advanced(b, c),
    ensures
        ParseContext::advanced(a, c),
{
    assert(c.events@.subrange(0, a.events@.len() as int) =~= b.events@.subrange(
        0,
        a.events@.len() as int,
    ));
}


/// A token that stands as a node of its own kind.
fn parse_single(p: &mut ParseContext, kind: NodeKind)
    requires
        old(p).wf(),
        old(p).pos < old(p).tokens@.len(),
    ensures
        ParseContext::advanced(*old(p), *final(p)),
        final(p).events@ == old(p).events@.push(ParseEvent::Start).push(
            ParseEvent::Bump(old(p).spec_next()),
        ).push(ParseEvent::End(kind)),
        final(p).pos == if old(p).pos < old(p).tokens@.len() {
            old(p).pos + 1
        } else {
            old(p).pos as int
        },
{
    let ghost snap0 = *p;
    p.start_node();
    let ghost snap1 = *p;
    p.bump();
    let ghost snap2 = *p;
    p.end_node(kind);
    proof {
        lemma_advanced_trans(snap0, snap1, snap2);
        lemma_advanced_trans(snap0, snap2, *p);
    }
}

fn parse_name(p: &mut ParseContext)
    requires
        old(p).wf(),
        old(p).pos < old(p).tokens@.len(),
    ensures
        final(p).events@ == old(p).events@.push(ParseEvent::Start).push(
            ParseEvent::Bump(old(p).spec_next()),
        ).push(ParseEvent::End(NodeKind::Name)),
        ParseContext::advanced(*old(p), *final(p)),
        old(p).pos < old(p).tokens@.len() ==> final(p).pos == old(p).pos + 1,
{
    parse_single(p, NodeKind::Name);
}

/// `*name`: the star and, where one follows, the name.
fn parse_label_literal(p: &mut ParseContext)
    requires
        old(p).wf(),
    ensures
        final(p).events@.len() > old(p).events@.len(),
        final(p).events@[old(p).events@.len() as int] == ParseEvent::Start,
        final(p).events@.last() == ParseEvent::End(NodeKind::LabelLiteral),
        ParseContext::advanced(*old(p), *final(p)),
        old(p).pos < old(p).tokens@.len() ==> final(p).pos > old(p).pos,
{
    let ghost snap0 = *p;
    p.start_node();
    let ghost snap1 = *p;
    p.bump();
    let ghost snap2 = *p;
    p.eat(Token::Ident);
    let ghost snap3 = *p;
    p.end_node(NodeKind::LabelLiteral);
    proof {
        lemma_advanced_trans(snap0, snap1, snap2);
        lemma_advanced_trans(snap0, snap2, snap3);
        lemma_advanced_trans(snap0, snap3, *p);
    }
}

fn parse_str_literal(p: &mut ParseContext)
    requires
        old(p).wf(),
        old(p).pos < old(p).tokens@.len(),
    ensures
        final(p).events@ == old(p).events@.push(ParseEvent::Start).push(
            ParseEvent::Bump(old(p).spec_next()),
        ).push(ParseEvent::End(NodeKind::StrLiteral)),
        ParseContext::advanced(*old(p), *final(p)),
        old(p).pos < old(p).tokens@.len() ==> final(p).pos == old(p).pos + 1,
{
    parse_single(p, NodeKind::StrLiteral);
}

/// An integer, with its sign where it has one.
fn parse_int_literal(p: &mut ParseContext)
    requires
        old(p).wf(),
    ensures
        final(p).events@.len() > old(p).events@.len(),
        final(p).events@[old(p).events@.len() as int] == ParseEvent::Start,
        final(p).events@.last() == ParseEvent::End(NodeKind::IntLiteral),
        ParseContext::advanced(*old(p), *final(p)),
        old(p).pos < old(p).tokens@.len() ==> final(p).pos > old(p).pos,
{
    let ghost snap0 = *p;
    p.start_node();
    let ghost snap1 = *p;
    let minus = p.eat(Token::Minus);
    let ghost snap2 = *p;
    if !minus {
        p.bump();
    } else {
        p.eat(Token::Digit);
    }
    let ghost snap3 = *p;
    p.end_node(NodeKind::IntLiteral);
    proof {
        lemma_advanced_trans(snap0, snap1, snap2);
        lemma_advanced_trans(snap0, snap2, snap3);
        lemma_advanced_trans(snap0, snap3, *p);
    }
}

/// `( expr )`; a missing closing parenthesis is tolerated.
pub fn parse_group_expr(p: &mut ParseContext)
    requires
        old(p).wf(),
        old(p).spec_next() == Token::LeftParen,
    ensures
        ParseContext::advanced(*old(p), *final(p)),
        final(p).pos > old(p).pos,
        final(p).events@[old(p).events@.len() as int] == ParseEvent::Bump(Token::LeftParen),
        !spec_is_expr_first(spec_token_at(old(p).tokens@, old(p).pos + 1)) ==> final(p).pos
            == old(p).pos + 1 + if spec_token_at(old(p).tokens@, old(p).pos + 1) == Token::RightParen {
            1int
        } else {
            0int
        },
        spec_is_expr_first(spec_token_at(old(p).tokens@, old(p).pos + 1)) ==> exists|m: int|
            old(p).pos + 1 < m <= final(p).pos && final(p).pos == m + if #[trigger] spec_token_at(
                old(p).tokens@,
                m,
            ) == Token::RightParen {
                1int
            } else {
                0int
            },
    decreases old(p).tokens@.len() - old(p).pos, 1int,
{
    let ghost snap0 = *p;
    p.bump();
    let ghost snap1 = *p;
    if p.next().is_expr_first() {
        parse_expr(p);
    } else {
        assert(p.events@.subrange(0, p.events@.len() as int) =~= p.events@);
    }
    let ghost snap2 = *p;
    p.eat(Token::RightParen);
    proof {
        lemma_advanced_trans(snap0, snap1, snap2);
        lemma_advanced_trans(snap0, snap2, *p);
        lemma_advanced_trans(snap1, snap2, *p);
        lemma_events_index(p.events@, snap1.events@, snap0.events@.len() as int);
        let m = snap2.pos as int;
        if spec_is_expr_first(spec_token_at(snap0.tokens@, snap0.pos + 1)) {
            assert(spec_token_at(snap0.tokens@, m) == snap2.spec_next());
        }
    }
}

/// A name, and where an opening parenthesis follows it, a call with arguments.
pub fn parse_call_expr(p: &mut ParseContext)
    requires
        old(p).wf(),
        old(p).spec_next() == Token::Ident,
    ensures
        ParseContext::advanced(*old(p), *final(p)),
        final(p).pos > old(p).pos,
        final(p).events@[old(p).events@.len() as int] == ParseEvent::Start,
        spec_token_at(old(p).tokens@, old(p).pos + 1) != Token::LeftParen ==> {
            &&& final(p).pos == old(p).pos + 1
            &&& final(p).events@ == old(p).events@.push(ParseEvent::Start).push(
                ParseEvent::Bump(Token::Ident),
            ).push(ParseEvent::End(NodeKind::Name))
        },
        spec_token_at(old(p).tokens@, old(p).pos + 1) == Token::LeftParen ==> {
            &&& final(p).events@[old(p).events@.len() as int + 3] == ParseEvent::Bump(Token::LeftParen)
            &&& final(p).events@[old(p).events@.len() as int + 4] == ParseEvent::Restart
            &&& final(p).events@.last() == ParseEvent::End(NodeKind::CallExpr)
        },
    decreases old(p).tokens@.len() - old(p).pos, 1int,
{
    let ghost snap0 = *p;
    parse_name(p);
    let ghost snap1 = *p;
    if !p.eat(Token::LeftParen) {
        proof {
            lemma_advanced_trans(snap0, snap1, *p);
        }
        return;
    }
    let ghost snap2 = *p;
    p.restart_node();
    let ghost snap3 = *p;
    parse_args(p);
    let ghost snap4 = *p;
    p.eat(Token::RightParen);
    let ghost snap5 = *p;
    p.end_node(NodeKind::CallExpr);
    proof {
        lemma_advanced_trans(snap0, snap1, snap2);
        lemma_advanced_trans(snap0, snap2, snap3);
        lemma_advanced_trans(snap0, snap3, snap4);
        lemma_advanced_trans(snap0, snap4, snap5);
        lemma_advanced_trans(snap0, snap5, *p);
        lemma_advanced_trans(snap3, snap4, snap5);
        lemma_advanced_trans(snap3, snap5, *p);
        let n = snap0.events@.len() as int;
        assert(snap3.events@[n] == ParseEvent::Start);
        lemma_events_index(p.events@, snap3.events@, n);
        assert(snap3.events@[n + 3] == ParseEvent::Bump(Token::LeftParen));
        assert(snap3.events@[n + 4] == ParseEvent::Restart);
        lemma_events_index(p.events@, snap3.events@, n + 3);
        lemma_events_index(p.events@, snap3.events@, n + 4);
    }
}

/// One expression. Where no expression starts at the position, the token is
/// skipped; at the end of the stream nothing is taken.
pub fn parse_expr(p: &mut ParseContext)
    requires
        old(p).wf(),
    ensures
        ParseContext::advanced(*old(p), *final(p)),
        old(p).pos < old(p).tokens@.len() ==> final(p).pos > old(p).pos,
        old(p).pos >= old(p).tokens@.len() ==> final(p).events@ == old(p).events@,
        ({
            let t = old(p).spec_next();
            let e = final(p).events@;
            let n = old(p).events@.len() as int;
            &&& t == Token::Ident ==> e[n] == ParseEvent::Start && (e.last() == ParseEvent::End(
                NodeKind::Name,
            ) || e.last() == ParseEvent::End(NodeKind::CallExpr))
            &&& t == Token::Star ==> e[n] == ParseEvent::Start && e.last() == ParseEvent::End(
                NodeKind::LabelLiteral,
            )
            &&& t == Token::LeftParen ==> e[n] == ParseEvent::Bump(Token::LeftParen)
            &&& (t == Token::SingleQuote || t == Token::DoubleQuote || t == Token::LeftQuote)
                ==> e == old(p).events@.push(ParseEvent::Start).push(ParseEvent::Bump(t)).push(
                ParseEvent::End(NodeKind::StrLiteral),
            )
            &&& (t == Token::Digit || t == Token::Minus) ==> e[n] == ParseEvent::Start && e.last()
                == ParseEvent::End(NodeKind::IntLiteral)
            &&& (old(p).pos < old(p).tokens@.len() && !spec_is_expr_first(t)) ==> e
                == old(p).events@.push(ParseEvent::Bump(t)) && final(p).pos == old(p).pos + 1
        }),
    decreases old(p).tokens@.len() - old(p).pos, 2int,
{
    let next = p.next();
    match next {
        Token::Ident => {
            assert(p.pos < p.tokens@.len());
            parse_call_expr(p);
        },
        Token::Star => parse_label_literal(p),
        Token::LeftParen => parse_group_expr(p),
        _ => {
            if next.is_str_literal_first() {
                parse_str_literal(p);
            } else if next.is_int_literal_first() {
                parse_int_literal(p);
            } else {
                p.bump();
            }
        },
    }
}

/// An argument list: comma-separated expressions, where an argument may be empty.
/// Tokens that can neither start an argument nor end the list are gathered into
/// a node of their own. Stops at the first token that cannot start an argument.
pub fn parse_args(p: &mut ParseContext)
    requires
        old(p).wf(),
    ensures
        ParseContext::advanced(*old(p), *final(p)),
        !spec_is_arg_first(final(p).spec_next()),
        spec_at_end_of_args(final(p).spec_next()),
        spec_at_end_of_args(old(p).spec_next()) ==> final(p).pos == old(p).pos
            && final(p).events@ == old(p).events@,
        spec_is_arg_first(old(p).spec_next()) ==> arg_ends(final(p).events@) > arg_ends(
            old(p).events@,
        ),
    decreases old(p).tokens@.len() - old(p).pos, 3int,
{
    let ghost snap0 = *p;
    let mut ends_with_comma = false;
    let ghost mut first = true;
    assert(p.events@.subrange(0, p.events@.len() as int) =~= p.events@);
    loop
        invariant
            ParseContext::advanced(snap0, *p),
            snap0 == *old(p),
            first ==> *p == snap0 && !ends_with_comma,
            !first ==> !spec_at_end_of_args(snap0.spec_next()) && (spec_is_arg_first(
                snap0.spec_next(),
            ) ==> arg_ends(p.events@) > arg_ends(snap0.events@)),
        ensures
            ParseContext::advanced(snap0, *p),
            !spec_is_arg_first(p.spec_next()),
            spec_at_end_of_args(p.spec_next()),
            first ==> *p == snap0 && !ends_with_comma,
            !first ==> !spec_at_end_of_args(snap0.spec_next()) && (spec_is_arg_first(
                snap0.spec_next(),
            ) ==> arg_ends(p.events@) > arg_ends(snap0.events@)),
        decreases p.tokens@.len() - p.pos,
    {
        let ghost round = *p;
        if !p.at_eof() && !p.next().is_arg_first() && !p.next().at_end_of_args() {
            let ghost q0 = *p;
            p.start_node();
            let ghost q1 = *p;
            assert(p.events@.subrange(0, p.events@.len() as int) =~= p.events@);
            while !p.at_eof() && !p.next().is_arg_first() && !p.next().at_end_of_args()
                invariant
                    ParseContext::advanced(q1, *p),
                decreases p.tokens@.len() - p.pos,
            {
                let ghost r0 = *p;
                p.bump();
                proof {
                    lemma_advanced_trans(q1, r0, *p);
                }
            }
            let ghost q2 = *p;
            p.end_node(NodeKind::Other);
            proof {
                lemma_advanced_trans(q0, q1, q2);
                lemma_advanced_trans(q0, q2, *p);
                lemma_advanced_trans(snap0, q0, *p);
                if !first && spec_is_arg_first(snap0.spec_next()) {
                    lemma_arg_ends_grow(p.events@, q0.events@);
                }
                first = false;
            }
        }
        if !p.next().is_arg_first() {
            break;
        }
        let ghost s0 = *p;
        p.start_node();
        let ghost s1 = *p;
        if p.next().is_expr_first() {
            parse_expr(p);
        } else {
            assert(p.events@.subrange(0, p.events@.len() as int) =~= p.events@);
        }
        let ghost s2 = *p;
        ends_with_comma = p.eat(Token::Comma);
        let ghost s3 = *p;
        p.end_node(NodeKind::Arg);
        proof {
            lemma_advanced_trans(s0, s1, s2);
            lemma_advanced_trans(s0, s2, s3);
            lemma_advanced_trans(s0, s3, *p);
            lemma_advanced_trans(snap0, s0, *p);
            assert(p.events@.drop_last() =~= s3.events@);
            lemma_advanced_trans(s0, s2, s3);
            lemma_arg_ends_grow(s3.events@, s0.events@);
            if first {
                assert(s0 == snap0);
            } else if spec_is_arg_first(snap0.spec_next()) {
                assert(arg_ends(s0.events@) > arg_ends(snap0.events@));
            }
            first = false;
        }
    }
    if ends_with_comma {
        let ghost e0 = *p;
        p.start_node();
        let ghost e1 = *p;
        p.end_node(NodeKind::Arg);
        proof {
            lemma_advanced_trans(e0, e1, *p);
            lemma_advanced_trans(snap0, e0, *p);
            lemma_arg_ends_grow(p.events@, e0.events@);
        }
    }
}

} // verus!
