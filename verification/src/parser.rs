//! Recursive-descent parser with operator-precedence climbing.
//!
//! The grammar: a top-level form is a `def` definition, an `extern`
//! declaration, or a bare expression (wrapped as an anonymous function). An
//! expression is a primary followed by a climb over binary operators; `<`,
//! `+`, `-` and `*` bind with precedence 10, 20, 30 and 40. Equal precedence
//! groups to the left; a tighter operator on the right is absorbed first.
//!
//! Each parsing function is specified by a mathematical mirror over the
//! token-view sequence; the executable functions are proved to return exactly
//! what the mirror says.

use vstd::prelude::*;

use crate::lexer::{token_views, Token, TokenView};

verus! {

// ---------------------------------------------------------------------------
// Syntax tree
// ---------------------------------------------------------------------------

/// An expression node.
#[derive(Debug, PartialEq)]
pub enum ExprAstNode {
    /// The empty expression, written `()`.
    Null,
    Number(NumberExprAstNode),
    Variable(VariableExprAstNode),
    Binary(BinaryExprAstNode),
    Call(CallExprAstNode),
}

/// A top-level form.
#[derive(Debug, PartialEq)]
pub enum AstNode {
    Function(FunctionAstNode),
    Prototype(PrototypeAstNode),
}

/// A numeric literal, kept as its source text.
#[derive(Debug, PartialEq)]
pub struct NumberExprAstNode {
    pub value: String,
}

/// A reference to a variable by name.
#[derive(Debug, PartialEq)]
pub struct VariableExprAstNode {
    pub name: String,
}

/// A binary expression: the operator token and its two operands.
#[derive(Debug, PartialEq)]
pub struct BinaryExprAstNode {
    pub op: Token,
    pub lhs: Box<ExprAstNode>,
    pub rhs: Box<ExprAstNode>,
}

/// A call expression: the callee name and the ordered arguments.
#[derive(Debug, PartialEq)]
pub struct CallExprAstNode {
    pub callee: String,
    pub args: Vec<ExprAstNode>,
}

/// A function signature: name and ordered parameter names.
#[derive(Debug, PartialEq)]
pub struct PrototypeAstNode {
    pub name: String,
    pub args: Vec<String>,
}

/// A function definition: a prototype and one body expression. An anonymous
/// top-level expression is a function whose prototype has an empty name and
/// no parameters.
#[derive(Debug, PartialEq)]
pub struct FunctionAstNode {
    pub prototype: PrototypeAstNode,
    pub body: Box<ExprAstNode>,
}

// ---------------------------------------------------------------------------
// Mathematical views of the tree
// ---------------------------------------------------------------------------

/// The mathematical value of an expression node.
pub enum ExprView {
    Null,
    Number(Seq<char>),
    Variable(Seq<char>),
    Binary(TokenView, Box<ExprView>, Box<ExprView>),
    Call(Seq<char>, Seq<ExprView>),
}

pub struct PrototypeView {
    pub name: Seq<char>,
    pub args: Seq<Seq<char>>,
}

pub struct FunctionView {
    pub prototype: PrototypeView,
    pub body: ExprView,
}

pub enum AstView {
    Function(FunctionView),
    Prototype(PrototypeView),
}

pub open spec fn expr_view(e: ExprAstNode) -> ExprView
    decreases e,
{
    match e {
        ExprAstNode::Null => ExprView::Null,
        ExprAstNode::Number(n) => ExprView::Number(n.value@),
        ExprAstNode::Variable(v) => ExprView::Variable(v.name@),
        ExprAstNode::Binary(b) => ExprView::Binary(
            b.op@,
            Box::new(expr_view(*b.lhs)),
            Box::new(expr_view(*b.rhs)),
        ),
        ExprAstNode::Call(c) => ExprView::Call(c.callee@, exprs_view(c.args@)),
    }
}

pub open spec fn exprs_view(s: Seq<ExprAstNode>) -> Seq<ExprView>
    decreases s,
{
    if s.len() == 0 {
        Seq::empty()
    } else {
        seq![expr_view(s[0])] + exprs_view(s.drop_first())
    }
}

pub open spec fn strs_view(s: Seq<String>) -> Seq<Seq<char>> {
    s.map_values(|x: String| x@)
}

pub open spec fn proto_view(p: PrototypeAstNode) -> PrototypeView {
    PrototypeView { name: p.name@, args: strs_view(p.args@) }
}

pub open spec fn fn_view(f: FunctionAstNode) -> FunctionView {
    FunctionView { prototype: proto_view(f.prototype), body: expr_view(*f.body) }
}

pub open spec fn ast_view(a: AstNode) -> AstView {
    match a {
        AstNode::Function(f) => AstView::Function(fn_view(f)),
        AstNode::Prototype(p) => AstView::Prototype(proto_view(p)),
    }
}

pub proof fn lemma_exprs_view_index(s: Seq<ExprAstNode>)
    ensures
        exprs_view(s).len() == s.len(),
        forall|k: int| 0 <= k < s.len() ==> exprs_view(s)[k] == expr_view(s[k]),
    decreases s,
{
    if s.len() > 0 {
        lemma_exprs_view_index(s.drop_first());
    }
}

// ---------------------------------------------------------------------------
// Operator precedence
// ---------------------------------------------------------------------------

/// The binding power of a binary operator token; a token with none ends the
/// climb.
pub open spec fn spec_precedence(t: TokenView) -> Option<u8> {
    match t {
        TokenView::LessThan => Some(10u8),
        TokenView::Plus => Some(20u8),
        TokenView::Minus => Some(30u8),
        TokenView::Star => Some(40u8),
        _ => None,
    }
}

fn precedence(t: &Token) -> (r: Option<u8>)
    ensures
        r == spec_precedence(t@),
{
    match t {
        Token::LessThan => Some(10),
        Token::Plus => Some(20),
        Token::Minus => Some(30),
        Token::Star => Some(40),
        _ => None,
    }
}

/// Every binary node carries one of the four operator tokens. The parser
/// guarantees this of everything it returns; lowering requires it.
pub open spec fn expr_ops_wf(e: ExprView) -> bool
    decreases e,
{
    match e {
        ExprView::Null => true,
        ExprView::Number(_) => true,
        ExprView::Variable(_) => true,
        ExprView::Binary(op, l, r) => spec_precedence(op) is Some && expr_ops_wf(*l)
            && expr_ops_wf(*r),
        ExprView::Call(_, args) => exprs_ops_wf(args),
    }
}

pub open spec fn exprs_ops_wf(s: Seq<ExprView>) -> bool
    decreases s,
{
    s.len() == 0 || (expr_ops_wf(s[0]) && exprs_ops_wf(s.drop_first()))
}

pub proof fn lemma_exprs_ops_wf_index(s: Seq<ExprView>)
    ensures
        exprs_ops_wf(s) <==> (forall|k: int| 0 <= k < s.len() ==> expr_ops_wf(#[trigger] s[k])),
    decreases s,
{
    if s.len() > 0 {
        lemma_exprs_ops_wf_index(s.drop_first());
        if exprs_ops_wf(s) {
            assert forall|k: int| 0 <= k < s.len() implies expr_ops_wf(#[trigger] s[k]) by {
                if k > 0 {
                    assert(s.drop_first()[k - 1] == s[k]);
                }
            }
        }
        if forall|k: int| 0 <= k < s.len() ==> expr_ops_wf(#[trigger] s[k]) {
            assert forall|k: int|
                0 <= k < s.drop_first().len() implies expr_ops_wf(
                #[trigger] s.drop_first()[k],
            ) by {
                assert(s.drop_first()[k] == s[k + 1]);
            }
        }
    }
}

/// Checks that every binary node carries one of the four operator tokens —
/// the shape lowering requires of its input, and the shape everything this
/// parser returns has.
pub fn check_ops_wf(e: &ExprAstNode) -> (b: bool)
    ensures
        b == expr_ops_wf(expr_view(*e)),
    decreases *e,
{
    match e {
        ExprAstNode::Null => true,
        ExprAstNode::Number(_) => true,
        ExprAstNode::Variable(_) => true,
        ExprAstNode::Binary(bn) => {
            if precedence(&bn.op).is_none() {
                return false;
            }
            check_ops_wf(&bn.lhs) && check_ops_wf(&bn.rhs)
        },
        ExprAstNode::Call(c) => {
            proof {
                lemma_exprs_view_index(c.args@);
                lemma_exprs_ops_wf_index(exprs_view(c.args@));
            }
            let mut k: usize = 0;
            while k < c.args.len()
                invariant
                    k <= c.args.len(),
                    e is Call,
                    e->Call_0 == *c,
                    forall|j: int| 0 <= j < k ==> expr_ops_wf(#[trigger] exprs_view(c.args@)[j]),
                    exprs_view(c.args@).len() == c.args@.len(),
                    forall|j: int|
                        0 <= j < c.args@.len() ==> exprs_view(c.args@)[j] == expr_view(
                            #[trigger] c.args@[j],
                        ),
                    exprs_ops_wf(exprs_view(c.args@)) <==> (forall|j: int|
                        0 <= j < exprs_view(c.args@).len() ==> expr_ops_wf(
                            #[trigger] exprs_view(c.args@)[j],
                        )),
                decreases c.args.len() - k,
            {
                if !check_ops_wf(&c.args[k]) {
                    return false;
                }
                k = k + 1;
            }
            true
        },
    }
}

// ---------------------------------------------------------------------------
// Errors
// ---------------------------------------------------------------------------

/// A parse failure: an unexpected token in some grammar position. Carried up
/// uninterpreted, with no recovery.
#[derive(Debug, Clone, Copy, PartialEq, Eq)]
pub struct ParseError;

// ---------------------------------------------------------------------------
// The grammar, as specification
// ---------------------------------------------------------------------------

/// A primary expression: an identifier or call, a numeric literal, or a
/// parenthesized expression.
pub open spec fn spec_parse_primary(toks: Seq<TokenView>, i: int) -> Option<(ExprView, int)>
    decreases toks.len() - i, 1int,
        when 0 <= i <= toks.len()
{
    if i < toks.len() {
        match toks[i] {
            TokenView::Identifier(_) => spec_parse_identifier_expr(toks, i),
            TokenView::Number(v) => Some((ExprView::Number(v), i + 1)),
            TokenView::LParen => spec_parse_paren_expr(toks, i),
            _ => None,
        }
    } else {
        None
    }
}

/// A parenthesized expression. An immediately following `)` yields the empty
/// expression; that `)` is deliberately left where it stands.
pub open spec fn spec_parse_paren_expr(toks: Seq<TokenView>, i: int) -> Option<(ExprView, int)>
    decreases toks.len() - i, 0int,
        when 0 <= i <= toks.len()
{
    if i < toks.len() && toks[i] is LParen {
        if i + 1 < toks.len() && toks[i + 1] is RParen {
            Some((ExprView::Null, i + 1))
        } else {
            match spec_parse_expression(toks, i + 1) {
                None => None,
                Some((e, j)) => if i + 1 < j <= toks.len() {
                    if j < toks.len() && toks[j] is RParen {
                        Some((e, j + 1))
                    } else {
                        None
                    }
                } else {
                    None
                },
            }
        }
    } else {
        None
    }
}

/// An identifier alone is a variable reference; followed by `(` it is a call
/// with comma-separated argument expressions.
pub open spec fn spec_parse_identifier_expr(toks: Seq<TokenView>, i: int) -> Option<
    (ExprView, int),
>
    decreases toks.len() - i, 0int,
        when 0 <= i <= toks.len()
{
    if i < toks.len() {
        match toks[i] {
            TokenView::Identifier(name) => if i + 1 < toks.len() && toks[i + 1] is LParen {
                if i + 2 < toks.len() && toks[i + 2] is RParen {
                    Some((ExprView::Call(name, Seq::empty()), i + 3))
                } else {
                    match spec_parse_args(toks, i + 2) {
                        None => None,
                        Some((args, j)) => Some((ExprView::Call(name, args), j)),
                    }
                }
            } else {
                Some((ExprView::Variable(name), i + 1))
            },
            _ => None,
        }
    } else {
        None
    }
}

/// One or more call arguments, each followed by `)` (stop, consumed) or `,`
/// (continue); anything else fails.
pub open spec fn spec_parse_args(toks: Seq<TokenView>, i: int) -> Option<(Seq<ExprView>, int)>
    decreases toks.len() - i, 3int,
        when 0 <= i <= toks.len()
{
    match spec_parse_expression(toks, i) {
        None => None,
        Some((e, j)) => if i < j <= toks.len() {
            if j < toks.len() && toks[j] is RParen {
                Some((seq![e], j + 1))
            } else if j < toks.len() && toks[j] is Comma {
                match spec_parse_args(toks, j + 1) {
                    None => None,
                    Some((rest, k)) => Some((seq![e] + rest, k)),
                }
            } else {
                None
            }
        } else {
            None
        },
    }
}

/// An expression: a primary followed by the operator-precedence climb with
/// floor 0.
pub open spec fn spec_parse_expression(toks: Seq<TokenView>, i: int) -> Option<(ExprView, int)>
    decreases toks.len() - i, 2int,
        when 0 <= i <= toks.len()
{
    match spec_parse_primary(toks, i) {
        None => None,
        Some((lhs, j)) => if i < j <= toks.len() {
            spec_parse_bin_op_rhs(toks, j, 0u8, lhs)
        } else {
            None
        },
    }
}

/// The precedence climb. While the next token is an operator binding at
/// least as tightly as `min_prec`: consume it, parse a primary, absorb any
/// tighter operators on the right into it (with the consumed operator's own
/// precedence as the new floor), and fold left.
pub open spec fn spec_parse_bin_op_rhs(
    toks: Seq<TokenView>,
    i: int,
    min_prec: u8,
    lhs: ExprView,
) -> Option<(ExprView, int)>
    decreases toks.len() - i, 0int,
        when 0 <= i <= toks.len()
{
    let p = if i < toks.len() {
        spec_precedence(toks[i])
    } else {
        None
    };
    match p {
        None => Some((lhs, i)),
        Some(tp) => if tp < min_prec {
            Some((lhs, i))
        } else {
            let op = toks[i];
            match spec_parse_primary(toks, i + 1) {
                None => None,
                Some((rhs0, j)) => if i + 1 < j <= toks.len() {
                    let np = if j < toks.len() {
                        spec_precedence(toks[j])
                    } else {
                        None
                    };
                    let npv = match np {
                        Some(v) => v,
                        None => 0u8,
                    };
                    let absorbed = if tp < npv {
                        spec_parse_bin_op_rhs(toks, j, tp, rhs0)
                    } else {
                        Some((rhs0, j))
                    };
                    match absorbed {
                        None => None,
                        Some((rhs, k)) => if j <= k <= toks.len() {
                            spec_parse_bin_op_rhs(
                                toks,
                                k,
                                min_prec,
                                ExprView::Binary(op, Box::new(lhs), Box::new(rhs)),
                            )
                        } else {
                            None
                        },
                    }
                } else {
                    None
                },
            }
        },
    }
}

/// Zero or more consecutive parameter names; stops at the first token that
/// is not an identifier. Never fails.
pub open spec fn spec_parse_proto_params(toks: Seq<TokenView>, i: int) -> (Seq<Seq<char>>, int)
    decreases toks.len() - i,
        when 0 <= i <= toks.len()
{
    if i < toks.len() {
        match toks[i] {
            TokenView::Identifier(n) => {
                let (rest, j) = spec_parse_proto_params(toks, i + 1);
                (seq![n] + rest, j)
            },
            _ => (Seq::empty(), i),
        }
    } else {
        (Seq::empty(), i)
    }
}

/// A prototype: a name, `(`, consecutive parameter names, `)`.
pub open spec fn spec_parse_prototype(toks: Seq<TokenView>, i: int) -> Option<
    (PrototypeView, int),
> {
    if 0 <= i && i < toks.len() {
        match toks[i] {
            TokenView::Identifier(name) => if i + 1 < toks.len() && toks[i + 1] is LParen {
                let (params, j) = spec_parse_proto_params(toks, i + 2);
                if j < toks.len() && toks[j] is RParen {
                    Some((PrototypeView { name, args: params }, j + 1))
                } else {
                    None
                }
            } else {
                None
            },
            _ => None,
        }
    } else {
        None
    }
}

/// `def`, a prototype, then one expression as the body.
pub open spec fn spec_parse_definition(toks: Seq<TokenView>, i: int) -> Option<
    (FunctionView, int),
> {
    if 0 <= i && i < toks.len() && toks[i] is Def {
        match spec_parse_prototype(toks, i + 1) {
            None => None,
            Some((p, j)) => if i + 1 < j <= toks.len() {
                match spec_parse_expression(toks, j) {
                    None => None,
                    Some((body, k)) => Some((FunctionView { prototype: p, body }, k)),
                }
            } else {
                None
            },
        }
    } else {
        None
    }
}

/// `extern` followed by a prototype.
pub open spec fn spec_parse_extern(toks: Seq<TokenView>, i: int) -> Option<(PrototypeView, int)> {
    if 0 <= i && i < toks.len() && toks[i] is Extern {
        spec_parse_prototype(toks, i + 1)
    } else {
        None
    }
}

/// The empty prototype worn by an anonymous top-level expression.
pub open spec fn empty_proto() -> PrototypeView {
    PrototypeView { name: Seq::empty(), args: Seq::empty() }
}

/// A bare expression at the top level, wrapped as an anonymous function so
/// that it lowers through the same path as a named definition.
pub open spec fn spec_parse_top_level_expr(toks: Seq<TokenView>, i: int) -> Option<
    (FunctionView, int),
> {
    match spec_parse_expression(toks, i) {
        None => None,
        Some((e, j)) => Some((FunctionView { prototype: empty_proto(), body: e }, j)),
    }
}

/// One top-level form: nothing at end of input or at a statement terminator,
/// else a definition, an external declaration, or an anonymous expression.
pub open spec fn spec_parse_top_level(toks: Seq<TokenView>, i: int) -> Result<
    Option<(AstView, int)>,
    ParseError,
> {
    if !(0 <= i && i < toks.len()) {
        Ok(None)
    } else {
        match toks[i] {
            TokenView::Eof => Ok(None),
            TokenView::Semicolon => Ok(None),
            TokenView::Def => match spec_parse_definition(toks, i) {
                Some((f, j)) => Ok(Some((AstView::Function(f), j))),
                None => Err(ParseError),
            },
            TokenView::Extern => match spec_parse_extern(toks, i) {
                Some((p, j)) => Ok(Some((AstView::Prototype(p), j))),
                None => Err(ParseError),
            },
            _ => match spec_parse_top_level_expr(toks, i) {
                Some((f, j)) => Ok(Some((AstView::Function(f), j))),
                None => Err(ParseError),
            },
        }
    }
}

/// A bare expression at the top level parses as an anonymous function: its
/// prototype has an empty name and no parameters, and its body is exactly
/// the parsed expression.
pub proof fn lemma_anonymous_top_level(toks: Seq<TokenView>, i: int)
    requires
        0 <= i < toks.len(),
        !(toks[i] is Eof),
        !(toks[i] is Semicolon),
        !(toks[i] is Def),
        !(toks[i] is Extern),
    ensures
        spec_parse_top_level(toks, i) == (match spec_parse_expression(toks, i) {
            Some((e, j)) => Ok::<Option<(AstView, int)>, ParseError>(
                Some((AstView::Function(FunctionView { prototype: empty_proto(), body: e }), j)),
            ),
            None => Err::<Option<(AstView, int)>, ParseError>(ParseError),
        }),
{
}

// ---------------------------------------------------------------------------
// The parser
// ---------------------------------------------------------------------------

/// Consumes a token vector, front to back. The vector is expected to end
/// with the single end-of-input token the tokenizer produces.
#[derive(Debug)]
pub struct Parser {
    pub tokens: Vec<Token>,
    pub pos: usize,
}

impl Parser {
    pub open spec fn wf(&self) -> bool {
        self.pos <= self.tokens.len()
    }

    /// The token stream as mathematical values.
    pub open spec fn toks(&self) -> Seq<TokenView> {
        token_views(self.tokens@)
    }

    pub fn new(tokens: Vec<Token>) -> (r: Parser)
        ensures
            r.wf(),
            r.tokens == tokens,
            r.pos == 0,
    {
        Parser { tokens, pos: 0 }
    }

    fn parse_number_expr(&self, pos: usize) -> (r: Result<(ExprAstNode, usize), ParseError>)
        requires
            self.wf(),
            pos <= self.tokens.len(),
        ensures
            match r {
                Ok((e, p2)) => pos < self.tokens.len() && (self.toks()[pos as int] matches
                    TokenView::Number(v) && expr_view(e) == ExprView::Number(v)) && p2 == pos + 1
                    && expr_ops_wf(expr_view(e)),
                Err(_) => !(pos < self.tokens.len() && self.toks()[pos as int] is Number),
            },
    {
        if pos >= self.tokens.len() {
            return Err(ParseError);
        }
        match &self.tokens[pos] {
            Token::Number(s) => Ok((ExprAstNode::Number(NumberExprAstNode { value: s.clone() }), pos
                + 1)),
            _ => Err(ParseError),
        }
    }

    fn parse_paren_expr(&self, pos: usize) -> (r: Result<(ExprAstNode, usize), ParseError>)
        requires
            self.wf(),
            pos <= self.tokens.len(),
        ensures
            match r {
                Ok((e, p2)) => spec_parse_paren_expr(self.toks(), pos as int) == Some(
                    (expr_view(e), p2 as int),
                ) && pos < p2 <= self.tokens.len() && expr_ops_wf(expr_view(e)),
                Err(_) => spec_parse_paren_expr(self.toks(), pos as int) is None,
            },
        decreases self.tokens@.len() - pos, 0int,
    {
        if !(pos < self.tokens.len() && matches!(&self.tokens[pos], Token::LParen)) {
            return Err(ParseError);
        }
        if pos + 1 < self.tokens.len() && matches!(&self.tokens[pos + 1], Token::RParen) {
            // the empty expression; the closing parenthesis stays where it
            // stands
            return Ok((ExprAstNode::Null, pos + 1));
        }
        let (e, j) = self.parse_expression_at(pos + 1)?;
        if j < self.tokens.len() && matches!(&self.tokens[j], Token::RParen) {
            Ok((e, j + 1))
        } else {
            Err(ParseError)
        }
    }

    fn parse_args(&self, pos: usize) -> (r: Result<(Vec<ExprAstNode>, usize), ParseError>)
        requires
            self.wf(),
            pos <= self.tokens.len(),
        ensures
            match r {
                Ok((args, p2)) => spec_parse_args(self.toks(), pos as int) == Some(
                    (exprs_view(args@), p2 as int),
                ) && pos < p2 <= self.tokens.len() && exprs_ops_wf(exprs_view(args@)),
                Err(_) => spec_parse_args(self.toks(), pos as int) is None,
            },
        decreases self.tokens@.len() - pos, 3int,
    {
        let (e, j) = self.parse_expression_at(pos)?;
        if j < self.tokens.len() && matches!(&self.tokens[j], Token::RParen) {
            let ghost ev = expr_view(e);
            let args = vec![e];
            proof {
                assert(args@.drop_first() =~= Seq::<ExprAstNode>::empty());
                assert(exprs_view(Seq::<ExprAstNode>::empty()) =~= Seq::<ExprView>::empty());
                assert(exprs_view(args@) =~= seq![ev] + Seq::<ExprView>::empty());
                assert(exprs_view(args@) =~= seq![ev]);
                assert(exprs_ops_wf(Seq::<ExprView>::empty()));
                assert(exprs_view(args@).drop_first() =~= Seq::<ExprView>::empty());
                assert(exprs_ops_wf(exprs_view(args@)));
            }
            Ok((args, j + 1))
        } else if j < self.tokens.len() && matches!(&self.tokens[j], Token::Comma) {
            let (mut rest, k) = self.parse_args(j + 1)?;
            let ghost rest0 = rest@;
            rest.insert(0, e);
            proof {
                assert(rest@.drop_first() =~= rest0);
                assert(exprs_view(rest@) =~= seq![expr_view(rest@[0])] + exprs_view(rest0));
                assert(exprs_view(rest@).drop_first() =~= exprs_view(rest0));
                assert(exprs_ops_wf(exprs_view(rest@)));
            }
            Ok((rest, k))
        } else {
            Err(ParseError)
        }
    }

    fn parse_identifier_expr(&self, pos: usize) -> (r: Result<(ExprAstNode, usize), ParseError>)
        requires
            self.wf(),
            pos <= self.tokens.len(),
        ensures
            match r {
                Ok((e, p2)) => spec_parse_identifier_expr(self.toks(), pos as int) == Some(
                    (expr_view(e), p2 as int),
                ) && pos < p2 <= self.tokens.len() && expr_ops_wf(expr_view(e)),
                Err(_) => spec_parse_identifier_expr(self.toks(), pos as int) is None,
            },
        decreases self.tokens@.len() - pos, 0int,
    {
        if pos >= self.tokens.len() {
            return Err(ParseError);
        }
        let name = match &self.tokens[pos] {
            Token::Identifier(s) => s.clone(),
            _ => {
                return Err(ParseError);
            },
        };
        if !(pos + 1 < self.tokens.len() && matches!(&self.tokens[pos + 1], Token::LParen)) {
            // not a call
            return Ok((ExprAstNode::Variable(VariableExprAstNode { name }), pos + 1));
        }
        if pos + 2 < self.tokens.len() && matches!(&self.tokens[pos + 2], Token::RParen) {
            let node = CallExprAstNode { callee: name, args: Vec::new() };
            proof {
                assert(self.toks()[pos as int] == self.tokens@[pos as int]@);
                assert(node.args@ =~= Seq::<ExprAstNode>::empty());
                assert(exprs_view(node.args@) =~= Seq::<ExprView>::empty());
                assert(exprs_ops_wf(exprs_view(node.args@)));
            }
            return Ok((ExprAstNode::Call(node), pos + 3));
        }
        let (args, j) = self.parse_args(pos + 2)?;
        Ok((ExprAstNode::Call(CallExprAstNode { callee: name, args }), j))
    }

    fn parse_primary(&self, pos: usize) -> (r: Result<(ExprAstNode, usize), ParseError>)
        requires
            self.wf(),
            pos <= self.tokens.len(),
        ensures
            match r {
                Ok((e, p2)) => spec_parse_primary(self.toks(), pos as int) == Some(
                    (expr_view(e), p2 as int),
                ) && pos < p2 <= self.tokens.len() && expr_ops_wf(expr_view(e)),
                Err(_) => spec_parse_primary(self.toks(), pos as int) is None,
            },
        decreases self.tokens@.len() - pos, 1int,
    {
        if pos >= self.tokens.len() {
            return Err(ParseError);
        }
        if matches!(&self.tokens[pos], Token::Identifier(_)) {
            self.parse_identifier_expr(pos)
        } else if matches!(&self.tokens[pos], Token::Number(_)) {
            self.parse_number_expr(pos)
        } else if matches!(&self.tokens[pos], Token::LParen) {
            self.parse_paren_expr(pos)
        } else {
            Err(ParseError)
        }
    }

    fn parse_bin_op_rhs(&self, min_prec: u8, lhs: ExprAstNode, pos: usize) -> (r: Result<
        (ExprAstNode, usize),
        ParseError,
    >)
        requires
            self.wf(),
            pos <= self.tokens.len(),
            expr_ops_wf(expr_view(lhs)),
        ensures
            match r {
                Ok((e, p2)) => spec_parse_bin_op_rhs(self.toks(), pos as int, min_prec, expr_view(
                    lhs,
                )) == Some((expr_view(e), p2 as int)) && pos <= p2 <= self.tokens.len()
                    && expr_ops_wf(expr_view(e)),
                Err(_) => spec_parse_bin_op_rhs(self.toks(), pos as int, min_prec, expr_view(lhs))
                    is None,
            },
        decreases self.tokens@.len() - pos, 0int,
    {
        let p = if pos < self.tokens.len() {
            precedence(&self.tokens[pos])
        } else {
            None
        };
        let tp = match p {
            None => {
                return Ok((lhs, pos));
            },
            Some(tp) => tp,
        };
        if tp < min_prec {
            return Ok((lhs, pos));
        }
        // we have a binary operator
        let op = self.tokens[pos].clone();
        let (rhs0, j) = self.parse_primary(pos + 1)?;
        let np = if j < self.tokens.len() {
            precedence(&self.tokens[j])
        } else {
            None
        };
        let npv = match np {
            Some(v) => v,
            None => 0u8,
        };
        let (rhs, k) = if tp < npv {
            self.parse_bin_op_rhs(tp, rhs0, j)?
        } else {
            (rhs0, j)
        };
        let merged = ExprAstNode::Binary(
            BinaryExprAstNode { op, lhs: Box::new(lhs), rhs: Box::new(rhs) },
        );
        self.parse_bin_op_rhs(min_prec, merged, k)
    }

    fn parse_expression_at(&self, pos: usize) -> (r: Result<(ExprAstNode, usize), ParseError>)
        requires
            self.wf(),
            pos <= self.tokens.len(),
        ensures
            match r {
                Ok((e, p2)) => spec_parse_expression(self.toks(), pos as int) == Some(
                    (expr_view(e), p2 as int),
                ) && pos < p2 <= self.tokens.len() && expr_ops_wf(expr_view(e)),
                Err(_) => spec_parse_expression(self.toks(), pos as int) is None,
            },
        decreases self.tokens@.len() - pos, 2int,
    {
        let (lhs, j) = self.parse_primary(pos)?;
        self.parse_bin_op_rhs(0, lhs, j)
    }

    fn is_ident_at(&self, i: usize) -> (b: bool)
        requires
            self.wf(),
            i < self.tokens.len(),
        ensures
            b == (self.toks()[i as int] is Identifier),
    {
        matches!(&self.tokens[i], Token::Identifier(_))
    }

    fn parse_prototype_at(&self, pos: usize) -> (r: Result<(PrototypeAstNode, usize), ParseError>)
        requires
            self.wf(),
            pos <= self.tokens.len(),
        ensures
            match r {
                Ok((p, p2)) => spec_parse_prototype(self.toks(), pos as int) == Some(
                    (proto_view(p), p2 as int),
                ) && pos < p2 <= self.tokens.len(),
                Err(_) => spec_parse_prototype(self.toks(), pos as int) is None,
            },
    {
        if pos >= self.tokens.len() {
            return Err(ParseError);
        }
        let name = match &self.tokens[pos] {
            Token::Identifier(s) => s.clone(),
            _ => {
                return Err(ParseError);
            },
        };
        if !(pos + 1 < self.tokens.len() && matches!(&self.tokens[pos + 1], Token::LParen)) {
            return Err(ParseError);
        }
        let mut args: Vec<String> = Vec::new();
        let mut i: usize = pos + 2;
        proof {
            assert(strs_view(args@) =~= Seq::<Seq<char>>::empty());
            assert(strs_view(args@) + spec_parse_proto_params(self.toks(), pos + 2).0
                =~= spec_parse_proto_params(self.toks(), pos + 2).0);
        }
        while i < self.tokens.len() && self.is_ident_at(i)
            invariant
                self.wf(),
                pos + 2 <= i <= self.tokens.len(),
                spec_parse_proto_params(self.toks(), pos + 2).0 == strs_view(args@)
                    + spec_parse_proto_params(self.toks(), i as int).0,
                spec_parse_proto_params(self.toks(), pos + 2).1 == spec_parse_proto_params(
                    self.toks(),
                    i as int,
                ).1,
            decreases self.tokens@.len() - i,
        {
            let s = match &self.tokens[i] {
                Token::Identifier(s) => s.clone(),
                _ => {
                    proof {
                        assert(false);
                    }
                    String::new()
                },
            };
            let ghost prev = args@;
            args.push(s);
            i = i + 1;
            proof {
                assert(strs_view(args@) =~= strs_view(prev).push(args@.last()@));
                assert(strs_view(prev) + (seq![args@.last()@] + spec_parse_proto_params(
                    self.toks(),
                    i as int,
                ).0) =~= strs_view(args@) + spec_parse_proto_params(self.toks(), i as int).0);
            }
        }
        proof {
            assert(strs_view(args@) + Seq::<Seq<char>>::empty() =~= strs_view(args@));
        }
        if i < self.tokens.len() && matches!(&self.tokens[i], Token::RParen) {
            Ok((PrototypeAstNode { name, args }, i + 1))
        } else {
            Err(ParseError)
        }
    }

    fn parse_definition_at(&self, pos: usize) -> (r: Result<(FunctionAstNode, usize), ParseError>)
        requires
            self.wf(),
            pos <= self.tokens.len(),
        ensures
            match r {
                Ok((f, p2)) => spec_parse_definition(self.toks(), pos as int) == Some(
                    (fn_view(f), p2 as int),
                ) && pos < p2 <= self.tokens.len() && expr_ops_wf(fn_view(f).body),
                Err(_) => spec_parse_definition(self.toks(), pos as int) is None,
            },
    {
        if !(pos < self.tokens.len() && matches!(&self.tokens[pos], Token::Def)) {
            return Err(ParseError);
        }
        let (p, j) = self.parse_prototype_at(pos + 1)?;
        let (body, k) = self.parse_expression_at(j)?;
        Ok((FunctionAstNode { prototype: p, body: Box::new(body) }, k))
    }

    fn parse_extern_at(&self, pos: usize) -> (r: Result<(PrototypeAstNode, usize), ParseError>)
        requires
            self.wf(),
            pos <= self.tokens.len(),
        ensures
            match r {
                Ok((p, p2)) => spec_parse_extern(self.toks(), pos as int) == Some(
                    (proto_view(p), p2 as int),
                ) && pos < p2 <= self.tokens.len(),
                Err(_) => spec_parse_extern(self.toks(), pos as int) is None,
            },
    {
        if !(pos < self.tokens.len() && matches!(&self.tokens[pos], Token::Extern)) {
            return Err(ParseError);
        }
        self.parse_prototype_at(pos + 1)
    }

    fn parse_top_level_expr_at(&self, pos: usize) -> (r: Result<
        (FunctionAstNode, usize),
        ParseError,
    >)
        requires
            self.wf(),
            pos <= self.tokens.len(),
        ensures
            match r {
                Ok((f, p2)) => spec_parse_top_level_expr(self.toks(), pos as int) == Some(
                    (fn_view(f), p2 as int),
                ) && pos < p2 <= self.tokens.len() && expr_ops_wf(fn_view(f).body) && fn_view(
                    f,
                ).prototype == empty_proto(),
                Err(_) => spec_parse_top_level_expr(self.toks(), pos as int) is None,
            },
    {
        let (body, k) = self.parse_expression_at(pos)?;
        let prototype = PrototypeAstNode { name: String::new(), args: Vec::new() };
        proof {
            assert(strs_view(prototype.args@) =~= Seq::<Seq<char>>::empty());
        }
        Ok((FunctionAstNode { prototype, body: Box::new(body) }, k))
    }

    /// Parses one expression, advancing past it on success.
    pub fn parse_expression(&mut self) -> (r: Result<ExprAstNode, ParseError>)
        requires
            old(self).wf(),
        ensures
            final(self).wf(),
            final(self).tokens == old(self).tokens,
            match r {
                Ok(e) => spec_parse_expression(old(self).toks(), old(self).pos as int) == Some(
                    (expr_view(e), final(self).pos as int),
                ) && expr_ops_wf(expr_view(e)),
                Err(_) => spec_parse_expression(old(self).toks(), old(self).pos as int) is None
                    && final(self).pos == old(self).pos,
            },
    {
        match self.parse_expression_at(self.pos) {
            Ok((e, p)) => {
                self.pos = p;
                Ok(e)
            },
            Err(e) => Err(e),
        }
    }

    /// Parses one top-level form, advancing past it on success. `Ok(None)`
    /// means end of input or a statement terminator: nothing to parse.
    /// A malformed form is reported as an error and does not abort the
    /// process; the caller may go on with the next line.
    pub fn parse_top_level(&mut self) -> (r: Result<Option<AstNode>, ParseError>)
        requires
            old(self).wf(),
        ensures
            final(self).wf(),
            final(self).tokens == old(self).tokens,
            match r {
                Ok(None) => spec_parse_top_level(old(self).toks(), old(self).pos as int)
                    == Ok::<Option<(AstView, int)>, ParseError>(None) && final(self).pos == old(
                    self,
                ).pos,
                Ok(Some(a)) => spec_parse_top_level(old(self).toks(), old(self).pos as int) == Ok::<
                    Option<(AstView, int)>,
                    ParseError,
                >(Some((ast_view(a), final(self).pos as int))) && (a matches AstNode::Function(f)
                    ==> expr_ops_wf(fn_view(f).body)),
                Err(e) => spec_parse_top_level(old(self).toks(), old(self).pos as int) == Err::<
                    Option<(AstView, int)>,
                    ParseError,
                >(e) && final(self).pos == old(self).pos,
            },
    {
        if self.pos >= self.tokens.len() {
            return Ok(None);
        }
        if matches!(&self.tokens[self.pos], Token::Eof) || matches!(
            &self.tokens[self.pos],
            Token::Semicolon,
        ) {
            return Ok(None);
        }
        if matches!(&self.tokens[self.pos], Token::Def) {
            match self.parse_definition_at(self.pos) {
                Ok((f, p)) => {
                    self.pos = p;
                    Ok(Some(AstNode::Function(f)))
                },
                Err(e) => Err(e),
            }
        } else if matches!(&self.tokens[self.pos], Token::Extern) {
            match self.parse_extern_at(self.pos) {
                Ok((p, p2)) => {
                    self.pos = p2;
                    Ok(Some(AstNode::Prototype(p)))
                },
                Err(e) => Err(e),
            }
        } else {
            match self.parse_top_level_expr_at(self.pos) {
                Ok((f, p)) => {
                    self.pos = p;
                    Ok(Some(AstNode::Function(f)))
                },
                Err(e) => Err(e),
            }
        }
    }
}

} // verus!
