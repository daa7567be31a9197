use vstd::prelude::*;

use crate::dataframe::Dataframe;
use crate::error::ZakuError;
use crate::logical_plan::plan_lowers;
use crate::logical_expr::{
    same_aggregate, AggregateExprs, AliasExpr, BinaryExprs, Column, LogicalExprs,
};
use crate::sql_tokens::{ascii_lower, ascii_lower_spec, tokenize, tokens_spec, BinOpToken, Token, TokenV};
use crate::strutil::str_eq;

verus! {

/// A parsed `SELECT`: its clauses, each empty when absent. An empty
/// projection list stands for the wildcard.
#[derive(Debug)]
pub struct SelectStmt {
    pub table: String,
    pub projections: Vec<LogicalExprs>,
    pub selection: Option<LogicalExprs>,
    pub group_by: Vec<LogicalExprs>,
    pub having: Option<LogicalExprs>,
    pub order_by: Vec<LogicalExprs>,
    pub asc: Vec<bool>,
    pub limit_n: Option<usize>,
}

impl SelectStmt {
    /// Every expression of the statement carries well-formed literals.
    pub open spec fn wf_stmt(self) -> bool {
        &&& forall|k: int|
            0 <= k < self.projections@.len() ==> (#[trigger] self.projections@[k]).wf_lexpr()
        &&& match self.selection {
            Some(e) => e.wf_lexpr(),
            None => true,
        }
        &&& forall|k: int|
            0 <= k < self.group_by@.len() ==> (#[trigger] self.group_by@[k]).wf_lexpr()
        &&& match self.having {
            Some(e) => e.wf_lexpr(),
            None => true,
        }
        &&& forall|k: int|
            0 <= k < self.order_by@.len() ==> (#[trigger] self.order_by@[k]).wf_lexpr()
    }
}

/// A parsed statement: a query, a plan explanation, or a copy to a file.
#[derive(Debug)]
pub enum Stmt {
    Select(Dataframe),
    Explain(Dataframe),
    CopyTo(Dataframe, String),
}

/// The binding strength of an operator token.
pub fn op_prec(op: &BinOpToken) -> (r: u8)
    ensures
        1 <= r <= 5,
{
    match op {
        BinOpToken::Or => 1,
        BinOpToken::And => 2,
        BinOpToken::Eq => 3,
        BinOpToken::Neq => 3,
        BinOpToken::Gt => 3,
        BinOpToken::Gte => 3,
        BinOpToken::Lt => 3,
        BinOpToken::Lte => 3,
        BinOpToken::Add => 4,
        BinOpToken::Sub => 4,
        BinOpToken::Mul => 5,
        BinOpToken::Div => 5,
        BinOpToken::Mod => 5,
    }
}

/// Whether the token at `pos` is a word whose lower-case form is `kw`.
pub open spec fn keyword_at(toks: Seq<Token>, pos: int, kw: Seq<char>) -> bool {
    0 <= pos < toks.len() && (toks[pos].view_token() matches TokenV::Word(w)
        && crate::sql_tokens::ascii_lower_spec(w) == kw)
}

/// Whether the word at `pos` is the given lower-case keyword.
fn peek_keyword(toks: &Vec<Token>, pos: usize, kw: &str) -> (r: bool)
    ensures
        r == keyword_at(toks@, pos as int, kw@),
{
    if pos >= toks.len() {
        return false;
    }
    match &toks[pos] {
        Token::Word(w) => {
            let lw = ascii_lower(w.as_str());
            str_eq(lw.as_str(), kw)
        },
        _ => false,
    }
}

/// The input ends in one number token at `pos` that reads as a decimal.
pub open spec fn lone_number_shape(toks: Seq<Token>, pos: int) -> bool {
    &&& 0 <= pos < toks.len()
    &&& pos + 1 == toks.len()
    &&& (toks[pos].view_token() matches TokenV::Number(n)
        && crate::numeric::dec_parse_of(n) is Some)
}

/// The expression is the number literal the token at `pos` reads as.
pub open spec fn reads_number(toks: Seq<Token>, pos: int, e: LogicalExprs) -> bool {
    e matches LogicalExprs::LiteralNumber(d) && d.wf() && {
        let q = crate::numeric::dec_parse_of(toks[pos].view_token()->Number_0)->Some_0;
        crate::numeric::rat_eq_int(
            d.num(),
            d.scale as int,
            crate::numeric::signed_val(q.0, crate::numeric::chars_int(q.1)),
            q.2,
        )
    }
}

/// Parses one primary expression: a literal, a column, an aggregate call,
/// or a parenthesised expression.
fn parse_primary(toks: &Vec<Token>, pos: usize) -> (r: Result<(LogicalExprs, usize), ZakuError>)
    requires
        pos <= toks@.len(),
        toks@.len() < usize::MAX,
    ensures
        match r {
            Ok(p) => p.0.wf_lexpr() && pos < p.1 <= toks@.len(),
            Err(e) => e is ParseError,
        },
        lone_number_shape(toks@, pos as int) ==> (r matches Ok(x) && x.1 == pos + 1
            && reads_number(toks@, pos as int, x.0)),
    decreases toks@.len() - pos, 0int,
{
    if pos >= toks.len() {
        return Err(ZakuError::ParseError(String::from_str("expected an expression")));
    }
    match &toks[pos] {
        Token::Number(n) => {
            match crate::numeric::dec_parse(n.as_str()) {
                Some(d) => Ok((LogicalExprs::LiteralNumber(d), pos + 1)),
                None => Err(ZakuError::ParseError(String::from_str("bad number literal"))),
            }
        },
        Token::Str(s) => {
            match crate::dates::parse_date(s.as_str()) {
                Some(d) => Ok((LogicalExprs::LiteralDate(d), pos + 1)),
                None => Ok((LogicalExprs::LiteralText(s.clone()), pos + 1)),
            }
        },
        Token::LParen => {
            let (inner, p) = match parse_expr_prec(toks, pos + 1, 1) {
                Ok(x) => x,
                Err(e) => {
                    return Err(e);
                },
            };
            if p < toks.len() && matches!(&toks[p], Token::RParen) {
                Ok((inner, p + 1))
            } else {
                Err(ZakuError::ParseError(String::from_str("expected a closing parenthesis")))
            }
        },
        Token::Word(w) => {
            let lw = ascii_lower(w.as_str());
            if str_eq(lw.as_str(), "true") {
                return Ok((LogicalExprs::LiteralBoolean(true), pos + 1));
            }
            if str_eq(lw.as_str(), "false") {
                return Ok((LogicalExprs::LiteralBoolean(false), pos + 1));
            }
            if pos + 1 < toks.len() && matches!(&toks[pos + 1], Token::LParen) {
                // an aggregate call over one expression
                let (arg, p) = match parse_expr_prec(toks, pos + 2, 1) {
                    Ok(x) => x,
                    Err(e) => {
                        return Err(e);
                    },
                };
                if !(p < toks.len() && matches!(&toks[p], Token::RParen)) {
                    return Err(
                        ZakuError::ParseError(
                            String::from_str("expected a closing parenthesis after the argument"),
                        ),
                    );
                }
                match AggregateExprs::from_str(w.as_str(), arg) {
                    Ok(a) => Ok((LogicalExprs::AggregateExpr(a), p + 1)),
                    Err(e) => Err(e),
                }
            } else {
                Ok((LogicalExprs::Column(Column { name: w.clone() }), pos + 1))
            }
        },
        _ => Err(ZakuError::ParseError(String::from_str("unexpected token in expression"))),
    }
}

/// The operator at `pos`, a word `AND`/`OR` counting as one.
fn peek_op(toks: &Vec<Token>, pos: usize) -> (r: Option<BinOpToken>)
    ensures
        r is Some ==> pos < toks@.len(),
{
    if pos >= toks.len() {
        return None;
    }
    match &toks[pos] {
        Token::Op(o) => Some(*o),
        Token::Star => Some(BinOpToken::Mul),
        Token::Word(w) => {
            let lw = ascii_lower(w.as_str());
            if str_eq(lw.as_str(), "and") {
                Some(BinOpToken::And)
            } else if str_eq(lw.as_str(), "or") {
                Some(BinOpToken::Or)
            } else {
                None
            }
        },
        _ => None,
    }
}

/// Parses an expression, folding in binary operators of at least the given
/// strength, left associative.
fn parse_expr_prec(toks: &Vec<Token>, pos: usize, min_prec: u8) -> (r: Result<
    (LogicalExprs, usize),
    ZakuError,
>)
    requires
        pos <= toks@.len(),
        toks@.len() < usize::MAX,
    ensures
        match r {
            Ok(p) => p.0.wf_lexpr() && pos < p.1 <= toks@.len(),
            Err(e) => e is ParseError,
        },
        lone_number_shape(toks@, pos as int) ==> (r matches Ok(x) && x.1 == pos + 1
            && reads_number(toks@, pos as int, x.0)),
    decreases toks@.len() - pos, 1int,
{
    let (first, p0) = match parse_primary(toks, pos) {
        Ok(x) => x,
        Err(e) => {
            return Err(e);
        },
    };
    let mut lhs = first;
    let mut p = p0;
    loop
        invariant
            pos < p <= toks@.len(),
            toks@.len() < usize::MAX,
            lhs.wf_lexpr(),
            lone_number_shape(toks@, pos as int) ==> p == pos + 1 && reads_number(
                toks@,
                pos as int,
                lhs,
            ),
        decreases toks@.len() - p,
    {
        let op = match peek_op(toks, p) {
            Some(o) => o,
            None => {
                return Ok((lhs, p));
            },
        };
        let prec = op_prec(&op);
        if prec < min_prec {
            return Ok((lhs, p));
        }
        if p + 1 > toks.len() {
            return Err(ZakuError::ParseError(String::from_str("expected a right operand")));
        }
        let next_min = if prec < 255 {
            prec + 1
        } else {
            prec
        };
        let (rhs, p2) = match parse_expr_prec(toks, p + 1, next_min) {
            Ok(x) => x,
            Err(e) => {
                return Err(e);
            },
        };
        lhs = LogicalExprs::BinaryExpr(BinaryExprs::new(lhs, &op, rhs));
        p = p2;
    }
}

/// Parses one expression starting at `pos`.
pub fn parse_expr(toks: &Vec<Token>, pos: usize) -> (r: Result<(LogicalExprs, usize), ZakuError>)
    requires
        pos <= toks@.len(),
        toks@.len() < usize::MAX,
    ensures
        match r {
            Ok(p) => p.0.wf_lexpr() && pos < p.1 <= toks@.len(),
            Err(e) => e is ParseError,
        },
        lone_number_shape(toks@, pos as int) ==> (r matches Ok(x) && x.1 == pos + 1
            && reads_number(toks@, pos as int, x.0)),
{
    parse_expr_prec(toks, pos, 1)
}

/// Reads an unsigned limit out of a number token's digits.
fn parse_limit(digits: &str) -> (r: Result<usize, ZakuError>)
    ensures
        r is Err ==> r->Err_0 is ParseError,
{
    let cs = crate::strutil::str_to_chars(digits);
    if cs.len() == 0 {
        return Err(ZakuError::ParseError(String::from_str("limit needs a number")));
    }
    let mut acc: usize = 0;
    let mut i: usize = 0;
    while i < cs.len()
        invariant
            i <= cs@.len(),
        decreases cs@.len() - i,
    {
        let c = cs[i];
        let u = c as u32;
        if !(48 <= u && u <= 57) {
            return Err(ZakuError::ParseError(String::from_str("limit must be a plain number")));
        }
        let d = (u - 48) as usize;
        if acc > (usize::MAX - d) / 10 {
            return Err(ZakuError::ParseError(String::from_str("limit is too large")));
        }
        acc = acc * 10 + d;
        i = i + 1;
    }
    Ok(acc)
}

/// The spec-level token shapes of the plainest query: `SELECT * FROM t`.
pub open spec fn wildcard_tokens(tv: Seq<TokenV>) -> bool {
    &&& tv.len() == 4
    &&& (tv[0] matches TokenV::Word(w) && ascii_lower_spec(w) == "select"@)
    &&& tv[1] == TokenV::Star
    &&& (tv[2] matches TokenV::Word(w) && ascii_lower_spec(w) == "from"@)
    &&& tv[3] is Word
}

/// The spec-level token shapes of the plainest explain: `EXPLAIN SELECT *
/// FROM t`.
pub open spec fn explain_wildcard_tokens(tv: Seq<TokenV>) -> bool {
    &&& tv.len() == 5
    &&& (tv[0] matches TokenV::Word(w) && ascii_lower_spec(w) == "explain"@)
    &&& (tv[1] matches TokenV::Word(w) && ascii_lower_spec(w) == "select"@)
    &&& tv[2] == TokenV::Star
    &&& (tv[3] matches TokenV::Word(w) && ascii_lower_spec(w) == "from"@)
    &&& tv[4] is Word
}

/// The token shape of the plainest query: `SELECT * FROM <table>` and
/// nothing after it.
pub open spec fn wildcard_select_shape(toks: Seq<Token>, pos: int) -> bool {
    &&& pos + 4 == toks.len()
    &&& keyword_at(toks, pos, "select"@)
    &&& toks[pos + 1].view_token() == TokenV::Star
    &&& keyword_at(toks, pos + 2, "from"@)
    &&& toks[pos + 3].view_token() is Word
}

/// Parses the clauses of a `SELECT` starting at the keyword itself.
pub fn parse_select(toks: &Vec<Token>, pos: usize) -> (r: Result<(SelectStmt, usize), ZakuError>)
    requires
        pos <= toks@.len(),
        toks@.len() < usize::MAX,
    ensures
        match r {
            Ok(p) => p.0.wf_stmt() && pos < p.1 <= toks@.len(),
            Err(e) => e is ParseError,
        },
        wildcard_select_shape(toks@, pos as int) ==> (r matches Ok(p) && p.1 == pos + 4
            && p.0.projections@.len() == 0 && p.0.selection is None && p.0.group_by@.len() == 0
            && p.0.having is None && p.0.order_by@.len() == 0 && p.0.limit_n is None && toks@[pos
            + 3].view_token() == TokenV::Word(p.0.table@)),
{
    if !peek_keyword(toks, pos, "select") {
        return Err(ZakuError::ParseError(String::from_str("expected SELECT")));
    }
    let mut p = pos + 1;
    let mut projections: Vec<LogicalExprs> = Vec::new();
    if p < toks.len() && matches!(&toks[p], Token::Star) {
        // the wildcard keeps every column
        p = p + 1;
    } else {
        loop
            invariant
                !wildcard_select_shape(toks@, pos as int),
                p <= toks@.len(),
                toks@.len() < usize::MAX,
                forall|k: int|
                    0 <= k < projections@.len() ==> (#[trigger] projections@[k]).wf_lexpr(),
            decreases toks@.len() - p,
        {
            let (e, p2) = match parse_expr(toks, p) {
                Ok(x) => x,
                Err(er) => {
                    return Err(er);
                },
            };
            let mut item = e;
            let mut p3 = p2;
            if peek_keyword(toks, p3, "as") {
                if p3 + 1 < toks.len() {
                    match &toks[p3 + 1] {
                        Token::Word(a) => {
                            item = LogicalExprs::AliasExpr(
                                AliasExpr { expr: Box::new(item), alias: a.clone() },
                            );
                            p3 = p3 + 2;
                        },
                        _ => {
                            return Err(
                                ZakuError::ParseError(String::from_str("expected an alias name")),
                            );
                        },
                    }
                } else {
                    return Err(
                        ZakuError::ParseError(String::from_str("expected an alias name")),
                    );
                }
            }
            projections.push(item);
            if p3 < toks.len() && matches!(&toks[p3], Token::Comma) {
                if p3 + 1 >= toks.len() {
                    return Err(
                        ZakuError::ParseError(String::from_str("expected another projection")),
                    );
                }
                p = p3 + 1;
            } else {
                p = p3;
                break ;
            }
        }
    }
    if !peek_keyword(toks, p, "from") {
        return Err(ZakuError::ParseError(String::from_str("expected FROM")));
    }
    p = p + 1;
    let table = if p < toks.len() {
        match &toks[p] {
            Token::Word(w) => {
                let t = w.clone();
                p = p + 1;
                t
            },
            _ => {
                return Err(ZakuError::ParseError(String::from_str("expected a table name")));
            },
        }
    } else {
        return Err(ZakuError::ParseError(String::from_str("expected a table name")));
    };
    let mut selection: Option<LogicalExprs> = None;
    if peek_keyword(toks, p, "where") {
        let (e, p2) = match parse_expr(toks, p + 1) {
            Ok(x) => x,
            Err(er) => {
                return Err(er);
            },
        };
        selection = Some(e);
        p = p2;
    }
    let mut group_by: Vec<LogicalExprs> = Vec::new();
    if peek_keyword(toks, p, "group") {
        if !peek_keyword(toks, p + 1, "by") {
            return Err(ZakuError::ParseError(String::from_str("expected BY after GROUP")));
        }
        p = p + 2;
        loop
            invariant
                !wildcard_select_shape(toks@, pos as int),
                p <= toks@.len(),
                toks@.len() < usize::MAX,
                forall|k: int| 0 <= k < group_by@.len() ==> (#[trigger] group_by@[k]).wf_lexpr(),
            decreases toks@.len() - p,
        {
            let (e, p2) = match parse_expr(toks, p) {
                Ok(x) => x,
                Err(er) => {
                    return Err(er);
                },
            };
            group_by.push(e);
            if p2 < toks.len() && matches!(&toks[p2], Token::Comma) {
                if p2 + 1 >= toks.len() {
                    return Err(
                        ZakuError::ParseError(String::from_str("expected another group key")),
                    );
                }
                p = p2 + 1;
            } else {
                p = p2;
                break ;
            }
        }
    }
    let mut having: Option<LogicalExprs> = None;
    if peek_keyword(toks, p, "having") {
        let (e, p2) = match parse_expr(toks, p + 1) {
            Ok(x) => x,
            Err(er) => {
                return Err(er);
            },
        };
        having = Some(e);
        p = p2;
    }
    let mut order_by: Vec<LogicalExprs> = Vec::new();
    let mut asc: Vec<bool> = Vec::new();
    if peek_keyword(toks, p, "order") {
        if !peek_keyword(toks, p + 1, "by") {
            return Err(ZakuError::ParseError(String::from_str("expected BY after ORDER")));
        }
        p = p + 2;
        loop
            invariant
                !wildcard_select_shape(toks@, pos as int),
                p <= toks@.len(),
                toks@.len() < usize::MAX,
                forall|k: int| 0 <= k < order_by@.len() ==> (#[trigger] order_by@[k]).wf_lexpr(),
            decreases toks@.len() - p,
        {
            let (e, p2) = match parse_expr(toks, p) {
                Ok(x) => x,
                Err(er) => {
                    return Err(er);
                },
            };
            order_by.push(e);
            let mut p3 = p2;
            if peek_keyword(toks, p3, "asc") {
                asc.push(true);
                p3 = p3 + 1;
            } else if peek_keyword(toks, p3, "desc") {
                asc.push(false);
                p3 = p3 + 1;
            } else {
                asc.push(true);
            }
            if p3 < toks.len() && matches!(&toks[p3], Token::Comma) {
                if p3 + 1 >= toks.len() {
                    return Err(
                        ZakuError::ParseError(String::from_str("expected another sort key")),
                    );
                }
                p = p3 + 1;
            } else {
                p = p3;
                break ;
            }
        }
    }
    let mut limit_n: Option<usize> = None;
    if peek_keyword(toks, p, "limit") {
        if p + 1 < toks.len() {
            match &toks[p + 1] {
                Token::Number(nstr) => {
                    match parse_limit(nstr.as_str()) {
                        Ok(v) => {
                            limit_n = Some(v);
                            p = p + 2;
                        },
                        Err(e) => {
                            return Err(e);
                        },
                    }
                },
                _ => {
                    return Err(
                        ZakuError::ParseError(
                            String::from_str("limit should be a positive number"),
                        ),
                    );
                },
            }
        } else {
            return Err(
                ZakuError::ParseError(String::from_str("limit should be a positive number")),
            );
        }
    }
    if pos < p {
        Ok((SelectStmt { table, projections, selection, group_by, having, order_by, asc, limit_n }, p))
    } else {
        Err(ZakuError::ParseError(String::from_str("empty statement")))
    }
}


/// The position of the first structurally equal aggregate in the list.
pub open spec fn agg_index(aggs: Seq<AggregateExprs>, a: AggregateExprs) -> Option<int>
    decreases aggs.len(),
{
    if aggs.len() == 0 {
        None
    } else if same_aggregate(aggs[0], a) {
        Some(0int)
    } else {
        match agg_index(aggs.skip(1), a) {
            Some(i) => Some(i + 1),
            None => None,
        }
    }
}

/// `agg_index` stays inside the list.
pub proof fn lemma_agg_index_range(aggs: Seq<AggregateExprs>, a: AggregateExprs)
    ensures
        match agg_index(aggs, a) {
            Some(i) => 0 <= i < aggs.len(),
            None => true,
        },
    decreases aggs.len(),
{
    if aggs.len() > 0 && !same_aggregate(aggs[0], a) {
        lemma_agg_index_range(aggs.skip(1), a);
    }
}

/// A scan that stops at the first match computes `agg_index`.
pub proof fn lemma_agg_index_found(aggs: Seq<AggregateExprs>, a: AggregateExprs, i: int)
    requires
        0 <= i < aggs.len(),
        same_aggregate(aggs[i], a),
        forall|q: int| 0 <= q < i ==> !same_aggregate(#[trigger] aggs[q], a),
    ensures
        agg_index(aggs, a) == Some(i),
    decreases aggs.len(),
{
    if i > 0 {
        assert(forall|q: int| 0 <= q < aggs.skip(1).len() ==> aggs.skip(1)[q] == aggs[q + 1]);
        lemma_agg_index_found(aggs.skip(1), a, i - 1);
    }
}

/// A scan that finds nothing means `agg_index` finds nothing.
pub proof fn lemma_agg_index_missing(aggs: Seq<AggregateExprs>, a: AggregateExprs)
    requires
        forall|q: int| 0 <= q < aggs.len() ==> !same_aggregate(#[trigger] aggs[q], a),
    ensures
        agg_index(aggs, a) is None,
    decreases aggs.len(),
{
    if aggs.len() > 0 {
        assert(forall|q: int| 0 <= q < aggs.skip(1).len() ==> aggs.skip(1)[q] == aggs[q + 1]);
        lemma_agg_index_missing(aggs.skip(1), a);
    }
}

/// Every aggregate nested in the expression appears in the list.
pub open spec fn aggs_covered(e: LogicalExprs, aggs: Seq<AggregateExprs>) -> bool {
    forall|k: int|
        0 <= k < e.aggregates_spec().len() ==> agg_index(
            aggs,
            #[trigger] e.aggregates_spec()[k],
        ) is Some
}

/// The rewritten expression: every aggregate becomes a reference to its
/// column in the aggregate output, offset past the group columns.
pub open spec fn rewrite_spec(
    gsize: int,
    e: LogicalExprs,
    aggs: Seq<AggregateExprs>,
) -> LogicalExprs
    decreases e,
{
    match e {
        LogicalExprs::AggregateExpr(a) => LogicalExprs::ColumnIndex(
            (gsize + agg_index(aggs, a)->Some_0) as usize,
        ),
        LogicalExprs::AliasExpr(al) => LogicalExprs::AliasExpr(
            AliasExpr { expr: Box::new(rewrite_spec(gsize, *al.expr, aggs)), alias: al.alias },
        ),
        LogicalExprs::BinaryExpr(be) => LogicalExprs::BinaryExpr(
            match be {
                BinaryExprs::Boolean(l, op, r) => BinaryExprs::Boolean(
                    Box::new(rewrite_spec(gsize, *l, aggs)),
                    op,
                    Box::new(rewrite_spec(gsize, *r, aggs)),
                ),
                BinaryExprs::Math(l, op, r) => BinaryExprs::Math(
                    Box::new(rewrite_spec(gsize, *l, aggs)),
                    op,
                    Box::new(rewrite_spec(gsize, *r, aggs)),
                ),
            },
        ),
        _ => e,
    }
}

/// The rewritten expression holds no aggregates.
pub proof fn lemma_rewrite_no_agg(gsize: int, e: LogicalExprs, aggs: Seq<AggregateExprs>)
    ensures
        rewrite_spec(gsize, e, aggs).aggregates_spec() =~= Seq::<AggregateExprs>::empty(),
        rewrite_spec(gsize, e, aggs).wf_lexpr() == e.wf_lexpr() || rewrite_spec(
            gsize,
            e,
            aggs,
        ).wf_lexpr(),
    decreases e,
{
    match e {
        LogicalExprs::AliasExpr(al) => {
            lemma_rewrite_no_agg(gsize, *al.expr, aggs);
        },
        LogicalExprs::BinaryExpr(be) => {
            match be {
                BinaryExprs::Boolean(l, _, r) => {
                    lemma_rewrite_no_agg(gsize, *l, aggs);
                    lemma_rewrite_no_agg(gsize, *r, aggs);
                },
                BinaryExprs::Math(l, _, r) => {
                    lemma_rewrite_no_agg(gsize, *l, aggs);
                    lemma_rewrite_no_agg(gsize, *r, aggs);
                },
            }
        },
        _ => {},
    }
}

/// The rewrite keeps literals well formed.
pub proof fn lemma_rewrite_wf(gsize: int, e: LogicalExprs, aggs: Seq<AggregateExprs>)
    requires
        e.wf_lexpr(),
    ensures
        rewrite_spec(gsize, e, aggs).wf_lexpr(),
    decreases e,
{
    match e {
        LogicalExprs::AliasExpr(al) => {
            lemma_rewrite_wf(gsize, *al.expr, aggs);
        },
        LogicalExprs::BinaryExpr(be) => {
            match be {
                BinaryExprs::Boolean(l, _, r) => {
                    lemma_rewrite_wf(gsize, *l, aggs);
                    lemma_rewrite_wf(gsize, *r, aggs);
                },
                BinaryExprs::Math(l, _, r) => {
                    lemma_rewrite_wf(gsize, *l, aggs);
                    lemma_rewrite_wf(gsize, *r, aggs);
                },
            }
        },
        _ => {},
    }
}

/// Rewrites aggregates inside an expression into references to their
/// positions in the aggregate output, past the group columns.
pub fn retrieve_aggregate_col_idx(
    group_by_size: usize,
    expr: &LogicalExprs,
    aggregates: &Vec<AggregateExprs>,
) -> (r: Result<LogicalExprs, ZakuError>)
    requires
        expr.wf_lexpr(),
        group_by_size + aggregates@.len() <= usize::MAX,
    ensures
        r is Ok <==> aggs_covered(*expr, aggregates@),
        match r {
            Ok(e2) => e2 == rewrite_spec(group_by_size as int, *expr, aggregates@) && e2.wf_lexpr()
                && !e2.has_aggregate(),
            Err(e) => e is ResolutionError,
        },
    decreases expr,
{
    let res: Result<LogicalExprs, ZakuError> = match expr {
        LogicalExprs::AggregateExpr(a) => {
            let mut j: usize = 0;
            let mut found: usize = aggregates.len();
            while j < aggregates.len() && found == aggregates.len()
                invariant
                    j <= aggregates@.len(),
                    found == aggregates@.len() || (found < aggregates@.len() && same_aggregate(
                        aggregates@[found as int],
                        *a,
                    )),
                    found == aggregates@.len() ==> forall|q: int|
                        0 <= q < j ==> !same_aggregate(#[trigger] aggregates@[q], *a),
                    found < aggregates@.len() ==> forall|q: int|
                        0 <= q < found ==> !same_aggregate(#[trigger] aggregates@[q], *a),
                decreases aggregates@.len() - j, (if found == aggregates@.len() { 1int } else { 0int }),
            {
                if aggregates[j].same_agg_exec(a) {
                    found = j;
                } else {
                    j = j + 1;
                }
            }
            if found == aggregates.len() {
                proof {
                    lemma_agg_index_missing(aggregates@, *a);
                    assert(expr.aggregates_spec() =~= seq![*a]);
                    assert(expr.aggregates_spec()[0] == *a);
                    assert(!aggs_covered(*expr, aggregates@));
                }
                Err(
                    ZakuError::ResolutionError(
                        String::from_str("aggregate is missing from the aggregate list"),
                    ),
                )
            } else {
                proof {
                    lemma_agg_index_found(aggregates@, *a, found as int);
                    assert(expr.aggregates_spec() =~= seq![*a]);
                }
                Ok(LogicalExprs::ColumnIndex(group_by_size + found))
            }
        },
        LogicalExprs::AliasExpr(al) => {
            match retrieve_aggregate_col_idx(group_by_size, &al.expr, aggregates) {
                Ok(e2) => Ok(
                    LogicalExprs::AliasExpr(
                        AliasExpr { expr: Box::new(e2), alias: al.alias.clone() },
                    ),
                ),
                Err(e) => {
                    proof {
                        assert(expr.aggregates_spec() =~= al.expr.aggregates_spec());
                        let kk = choose|kk: int|
                            0 <= kk < al.expr.aggregates_spec().len() && !(agg_index(
                                aggregates@,
                                #[trigger] al.expr.aggregates_spec()[kk],
                            ) is Some);
                        assert(expr.aggregates_spec()[kk] == al.expr.aggregates_spec()[kk]);
                        assert(!aggs_covered(*expr, aggregates@));
                    }
                    Err(e)
                },
            }
        },
        LogicalExprs::BinaryExpr(be) => {
            let (l, r2) = match be {
                BinaryExprs::Boolean(l, _, r2) => (l, r2),
                BinaryExprs::Math(l, _, r2) => (l, r2),
            };
            let lr = match retrieve_aggregate_col_idx(group_by_size, l, aggregates) {
                Ok(x) => x,
                Err(e) => {
                    proof {
                        assert(expr.aggregates_spec() =~= l.aggregates_spec()
                            + r2.aggregates_spec());
                        let kk = choose|kk: int|
                            0 <= kk < l.aggregates_spec().len() && !(agg_index(
                                aggregates@,
                                #[trigger] l.aggregates_spec()[kk],
                            ) is Some);
                        assert(expr.aggregates_spec()[kk] == l.aggregates_spec()[kk]);
                        assert(!aggs_covered(*expr, aggregates@));
                    }
                    return Err(e);
                },
            };
            let rr = match retrieve_aggregate_col_idx(group_by_size, r2, aggregates) {
                Ok(x) => x,
                Err(e) => {
                    proof {
                        assert(expr.aggregates_spec() =~= l.aggregates_spec()
                            + r2.aggregates_spec());
                        let kk = choose|kk: int|
                            0 <= kk < r2.aggregates_spec().len() && !(agg_index(
                                aggregates@,
                                #[trigger] r2.aggregates_spec()[kk],
                            ) is Some);
                        assert(expr.aggregates_spec()[l.aggregates_spec().len() + kk]
                            == r2.aggregates_spec()[kk]);
                        assert(!aggs_covered(*expr, aggregates@));
                    }
                    return Err(e);
                },
            };
            proof {
                assert(expr.aggregates_spec() =~= l.aggregates_spec() + r2.aggregates_spec());
            }
            match be {
                BinaryExprs::Boolean(_, op, _) => Ok(
                    LogicalExprs::BinaryExpr(
                        BinaryExprs::Boolean(Box::new(lr), *op, Box::new(rr)),
                    ),
                ),
                BinaryExprs::Math(_, op, _) => Ok(
                    LogicalExprs::BinaryExpr(BinaryExprs::Math(Box::new(lr), *op, Box::new(rr))),
                ),
            }
        },
        _ => Ok(expr.duplicate()),
    };
    proof {
        if res is Ok {
            lemma_rewrite_no_agg(group_by_size as int, *expr, aggregates@);
            lemma_rewrite_wf(group_by_size as int, *expr, aggregates@);
        }
    }
    res
}

/// Rewrites every projection for use above the aggregate output; a grouped
/// query without projections is refused.
pub fn get_aggregate_indexes(
    group_by_size: usize,
    projections: &Vec<LogicalExprs>,
    aggregates: &Vec<AggregateExprs>,
) -> (r: Result<Vec<LogicalExprs>, ZakuError>)
    requires
        forall|k: int|
            0 <= k < projections@.len() ==> (#[trigger] projections@[k]).wf_lexpr(),
        group_by_size + aggregates@.len() <= usize::MAX,
    ensures
        r is Ok <==> projections@.len() > 0 && (forall|k: int|
            0 <= k < projections@.len() ==> aggs_covered(#[trigger] projections@[k], aggregates@)),
        match r {
            Ok(es) => es@.len() == projections@.len() && forall|k: int|
                0 <= k < es@.len() ==> (#[trigger] es@[k]).wf_lexpr() && !es@[k].has_aggregate()
                    && es@[k] == rewrite_spec(group_by_size as int, projections@[k], aggregates@),
            Err(e) => e is ResolutionError,
        },
{
    if projections.len() == 0 {
        return Err(
            ZakuError::ResolutionError(
                String::from_str("grouped queries need at least one projection"),
            ),
        );
    }
    let mut out: Vec<LogicalExprs> = Vec::new();
    let mut k: usize = 0;
    while k < projections.len()
        invariant
            forall|q: int|
                0 <= q < projections@.len() ==> (#[trigger] projections@[q]).wf_lexpr(),
            group_by_size + aggregates@.len() <= usize::MAX,
            k <= projections@.len(),
            out@.len() == k,
            forall|q: int|
                0 <= q < k ==> (#[trigger] out@[q]).wf_lexpr() && !out@[q].has_aggregate()
                    && out@[q] == rewrite_spec(group_by_size as int, projections@[q], aggregates@),
            forall|q: int|
                0 <= q < k ==> aggs_covered(#[trigger] projections@[q], aggregates@),
        decreases projections@.len() - k,
    {
        match retrieve_aggregate_col_idx(group_by_size, &projections[k], aggregates) {
            Ok(e2) => {
                out.push(e2);
            },
            Err(e) => {
                return Err(e);
            },
        }
        k = k + 1;
    }
    Ok(out)
}


/// Aggregates pulled out of a well-formed expression are well formed.
pub proof fn lemma_aggregates_wf(e: LogicalExprs)
    requires
        e.wf_lexpr(),
    ensures
        forall|k: int|
            0 <= k < e.aggregates_spec().len() ==> (#[trigger] e.aggregates_spec()[k]).wf_agg(),
    decreases e,
{
    match e {
        LogicalExprs::AggregateExpr(a) => {
            assert(e.aggregates_spec() =~= seq![a]);
            assert(e.aggregates_spec()[0] == a);
            assert(a.inner().wf_lexpr());
            assert(a.wf_agg());
        },
        LogicalExprs::AliasExpr(al) => {
            lemma_aggregates_wf(*al.expr);
            assert(e.aggregates_spec() == al.expr.aggregates_spec());
        },
        LogicalExprs::BinaryExpr(be) => {
            let l = match be {
                BinaryExprs::Boolean(l, _, _) => l,
                BinaryExprs::Math(l, _, _) => l,
            };
            let r = match be {
                BinaryExprs::Boolean(_, _, r) => r,
                BinaryExprs::Math(_, _, r) => r,
            };
            lemma_aggregates_wf(*l);
            lemma_aggregates_wf(*r);
            assert(e.aggregates_spec() == l.aggregates_spec() + r.aggregates_spec());
            assert forall|k: int| 0 <= k < e.aggregates_spec().len() implies (
            #[trigger] e.aggregates_spec()[k]).wf_agg() by {
                if k < l.aggregates_spec().len() {
                    assert(e.aggregates_spec()[k] == l.aggregates_spec()[k]);
                } else {
                    assert(e.aggregates_spec()[k] == r.aggregates_spec()[k
                        - l.aggregates_spec().len()]);
                }
            }
        },
        _ => {},
    }
}

/// Collects the aggregates of a list of expressions, keeping their order.
fn collect_aggregates(exprs: &Vec<LogicalExprs>) -> (r: Vec<AggregateExprs>)
    requires
        forall|k: int| 0 <= k < exprs@.len() ==> (#[trigger] exprs@[k]).wf_lexpr(),
    ensures
        forall|k: int| 0 <= k < r@.len() ==> (#[trigger] r@[k]).wf_agg(),
        exprs@.len() == 0 ==> r@.len() == 0,
{
    let mut out: Vec<AggregateExprs> = Vec::new();
    let mut k: usize = 0;
    while k < exprs.len()
        invariant
            forall|q: int| 0 <= q < exprs@.len() ==> (#[trigger] exprs@[q]).wf_lexpr(),
            k <= exprs@.len(),
            forall|q: int| 0 <= q < out@.len() ==> (#[trigger] out@[q]).wf_agg(),
            exprs@.len() == 0 ==> out@.len() == 0,
        decreases exprs@.len() - k,
    {
        let aggs = exprs[k].as_aggregate();
        proof {
            lemma_aggregates_wf(exprs@[k as int]);
        }
        let ghost before = out@;
        let mut q: usize = 0;
        while q < aggs.len()
            invariant
                aggs@ == exprs@[k as int].aggregates_spec(),
                k < exprs@.len(),
                forall|t: int| 0 <= t < aggs@.len() ==> (#[trigger] aggs@[t]).wf_agg(),
                forall|t: int| 0 <= t < out@.len() ==> (#[trigger] out@[t]).wf_agg(),
                q <= aggs@.len(),
            decreases aggs@.len() - q,
        {
            out.push(aggs[q].duplicate());
            q = q + 1;
        }
        k = k + 1;
    }
    out
}

/// Lowers one parsed `SELECT` onto a base frame: filter, then grouping when
/// aggregates or group keys call for one, then the trailing filter, sort,
/// projection and limit. A `WHERE` with an aggregate is an error, as is a
/// grouped query that keeps the wildcard.
pub fn create_df(select: &SelectStmt, dataframe: &Dataframe) -> (r: Result<Dataframe, ZakuError>)
    requires
        dataframe.wf(),
        select.wf_stmt(),
    ensures
        match r {
            Ok(df) => df.wf(),
            Err(e) => e is ResolutionError || e is ParseError,
        },
        select.selection matches Some(e) && e.has_aggregate() ==> r is Err,
        select.group_by@.len() > 0 && select.projections@.len() == 0 ==> r is Err,
        r is Ok && select.limit_n is Some ==> (r->Ok_0.plan matches
            crate::logical_plan::LogicalPlans::Limit(l) && l.limit == select.limit_n->Some_0),
        (select.selection is None && select.projections@.len() == 0 && select.group_by@.len() == 0
            && select.having is None && select.order_by@.len() == 0 && select.limit_n is None)
            ==> (r matches Ok(d) && d.plan.out_lfields() == dataframe.plan.out_lfields()
            && plan_lowers(d.plan) == plan_lowers(dataframe.plan)),
{
    let mut df = dataframe.duplicate();
    // the filter comes first; it cannot hold aggregates
    match &select.selection {
        Some(sel) => {
            let sel_aggs = sel.as_aggregate();
            if sel_aggs.len() > 0 {
                return Err(
                    ZakuError::ResolutionError(
                        String::from_str("WHERE cannot hold aggregate functions"),
                    ),
                );
            }
            df = match df.filter(sel.duplicate()) {
                Ok(d) => d,
                Err(e) => {
                    return Err(e);
                },
            };
        },
        None => {},
    }
    // the aggregates of the projections, then of HAVING, without repeats
    let mut aggregates = collect_aggregates(&select.projections);
    match &select.having {
        Some(h) => {
            let haggs = h.as_aggregate();
            proof {
                lemma_aggregates_wf(*h);
            }
            let mut q: usize = 0;
            while q < haggs.len()
                invariant
                    forall|t: int| 0 <= t < haggs@.len() ==> (#[trigger] haggs@[t]).wf_agg(),
                    forall|t: int|
                        0 <= t < aggregates@.len() ==> (#[trigger] aggregates@[t]).wf_agg(),
                    q <= haggs@.len(),
                decreases haggs@.len() - q,
            {
                let mut j: usize = 0;
                let mut present = false;
                while j < aggregates.len()
                    invariant
                        forall|t: int|
                            0 <= t < aggregates@.len() ==> (#[trigger] aggregates@[t]).wf_agg(),
                        q < haggs@.len(),
                        forall|t: int| 0 <= t < haggs@.len() ==> (#[trigger] haggs@[t]).wf_agg(),
                        j <= aggregates@.len(),
                    decreases aggregates@.len() - j,
                {
                    if aggregates[j].same_agg_exec(&haggs[q]) {
                        present = true;
                    }
                    j = j + 1;
                }
                if !present {
                    aggregates.push(haggs[q].duplicate());
                }
                q = q + 1;
            }
        },
        None => {},
    }
    // a plain query needs no grouping step
    if select.group_by.len() == 0 && aggregates.len() == 0 {
        if select.order_by.len() > 0 {
            df = match df.sort(dup_expr_list(&select.order_by), dup_bool_list(&select.asc)) {
                Ok(d) => d,
                Err(e) => {
                    return Err(e);
                },
            };
        }
        if select.projections.len() > 0 {
            df = match df.projection(dup_expr_list(&select.projections)) {
                Ok(d) => d,
                Err(e) => {
                    return Err(e);
                },
            };
        }
        match &select.limit_n {
            Some(n) => {
                df = match df.limit(*n) {
                    Ok(d) => d,
                    Err(e) => {
                        return Err(e);
                    },
                };
            },
            None => {},
        }
        return Ok(df);
    }
    // grouped: rewrite, aggregate, then the trailing steps
    let group_by_size = select.group_by.len();
    if group_by_size > usize::MAX - aggregates.len() {
        return Err(ZakuError::ResolutionError(String::from_str("too many aggregates")));
    }
    // a grouping step stays well formed only over plain keys and inputs
    let gschema = df.schema();
    let mut g: usize = 0;
    while g < select.group_by.len()
        invariant
            !(select.selection is None && select.projections@.len() == 0
                && select.group_by@.len() == 0 && select.having is None && select.order_by@.len()
                == 0 && select.limit_n is None),
            forall|q: int|
                0 <= q < select.group_by@.len() ==> (#[trigger] select.group_by@[q]).wf_lexpr(),
            g <= select.group_by@.len(),
            forall|q: int| 0 <= q < g ==> !(#[trigger] select.group_by@[q]).has_aggregate(),
        decreases select.group_by@.len() - g,
    {
        let gaggs = select.group_by[g].as_aggregate();
        if gaggs.len() > 0 {
            return Err(
                ZakuError::ResolutionError(String::from_str("group keys cannot hold aggregates")),
            );
        }
        g = g + 1;
    }
    let mut g2: usize = 0;
    while g2 < aggregates.len()
        invariant
            !(select.selection is None && select.projections@.len() == 0
                && select.group_by@.len() == 0 && select.having is None && select.order_by@.len()
                == 0 && select.limit_n is None),
            forall|q: int| 0 <= q < aggregates@.len() ==> (#[trigger] aggregates@[q]).wf_agg(),
            gschema.fields@ == df.plan.out_lfields(),
            g2 <= aggregates@.len(),
            forall|q: int|
                0 <= q < g2 ==> !(#[trigger] aggregates@[q]).inner().has_aggregate()
                    && aggregates@[q].inner().to_field_spec(gschema.fields@) is Some,
        decreases aggregates@.len() - g2,
    {
        let iaggs = aggregates[g2].input().as_aggregate();
        if iaggs.len() > 0 {
            return Err(
                ZakuError::ResolutionError(String::from_str("aggregates cannot nest aggregates")),
            );
        }
        match aggregates[g2].input().to_field(&gschema) {
            Ok(_) => {},
            Err(e) => {
                return Err(e);
            },
        }
        g2 = g2 + 1;
    }
    let aggr_projections = match get_aggregate_indexes(
        group_by_size,
        &select.projections,
        &aggregates,
    ) {
        Ok(es) => es,
        Err(e) => {
            return Err(e);
        },
    };
    let mut agg_list: Vec<AggregateExprs> = Vec::new();
    let mut t: usize = 0;
    while t < aggregates.len()
        invariant
            forall|q: int| 0 <= q < aggregates@.len() ==> (#[trigger] aggregates@[q]).wf_agg(),
            t <= aggregates@.len(),
            agg_list@.len() == t,
            forall|q: int| 0 <= q < t ==> #[trigger] agg_list@[q] == aggregates@[q],
        decreases aggregates@.len() - t,
    {
        agg_list.push(aggregates[t].duplicate());
        t = t + 1;
    }
    df = match df.aggregate(dup_expr_list(&select.group_by), agg_list) {
        Ok(d) => d,
        Err(e) => {
            return Err(e);
        },
    };
    match &select.having {
        Some(h) => {
            let rewritten = match retrieve_aggregate_col_idx(group_by_size, h, &aggregates) {
                Ok(e2) => e2,
                Err(e) => {
                    return Err(e);
                },
            };
            df = match df.filter(rewritten) {
                Ok(d) => d,
                Err(e) => {
                    return Err(e);
                },
            };
        },
        None => {},
    }
    if select.order_by.len() > 0 {
        df = match df.sort(dup_expr_list(&select.order_by), dup_bool_list(&select.asc)) {
            Ok(d) => d,
            Err(e) => {
                return Err(e);
            },
        };
    }
    df = match df.projection(aggr_projections) {
        Ok(d) => d,
        Err(e) => {
            return Err(e);
        },
    };
    match &select.limit_n {
        Some(n) => {
            df = match df.limit(*n) {
                Ok(d) => d,
                Err(e) => {
                    return Err(e);
                },
            };
        },
        None => {},
    }
    Ok(df)
}

/// Copies a list of expressions.
fn dup_expr_list(v: &Vec<LogicalExprs>) -> (r: Vec<LogicalExprs>)
    ensures
        r@ == v@,
{
    crate::logical_plan::dup_exprs(v)
}

/// Copies a list of direction flags.
fn dup_bool_list(v: &Vec<bool>) -> (r: Vec<bool>)
    ensures
        r@ == v@,
{
    let mut out: Vec<bool> = Vec::new();
    let mut t: usize = 0;
    while t < v.len()
        invariant
            t <= v@.len(),
            out@ == v@.take(t as int),
        decreases v@.len() - t,
    {
        out.push(v[t]);
        proof {
            assert(v@.take(t + 1) =~= v@.take(t as int).push(v@[t as int]));
        }
        t = t + 1;
    }
    proof {
        assert(v@.take(v@.len() as int) =~= v@);
    }
    out
}

/// Parses one SQL statement against a base frame: a `SELECT`, an
/// `EXPLAIN SELECT`, or a `COPY (SELECT …) TO '<path>'`.
pub fn parse(sql: &str, df: &Dataframe) -> (r: Result<Stmt, ZakuError>)
    requires
        df.wf(),
    ensures
        match r {
            Ok(st) => match st {
                Stmt::Select(d) => d.wf(),
                Stmt::Explain(d) => d.wf(),
                Stmt::CopyTo(d, _) => d.wf(),
            },
            Err(e) => e is ParseError || e is ResolutionError,
        },
        (tokens_spec(sql@) matches Some(tv) && wildcard_tokens(tv)) ==> (r matches Ok(st) && (
        st matches Stmt::Select(d) && d.plan.out_lfields() == df.plan.out_lfields()
            && plan_lowers(d.plan) == plan_lowers(df.plan))),
        (tokens_spec(sql@) matches Some(tv) && explain_wildcard_tokens(tv)) ==> (r matches Ok(st)
            && (st matches Stmt::Explain(d) && d.plan.out_lfields() == df.plan.out_lfields()
            && plan_lowers(d.plan) == plan_lowers(df.plan))),
{
    let toks = match tokenize(sql) {
        Ok(t) => t,
        Err(e) => {
            return Err(e);
        },
    };
    if toks.len() >= usize::MAX {
        return Err(ZakuError::ParseError(String::from_str("statement is too long")));
    }
    proof {
        if tokens_spec(sql@) is Some && wildcard_tokens(tokens_spec(sql@)->Some_0) {
            assert(wildcard_select_shape(toks@, 0));
        }
        if tokens_spec(sql@) is Some && explain_wildcard_tokens(tokens_spec(sql@)->Some_0) {
            reveal_strlit("explain");
            reveal_strlit("select");
            assert("explain"@.len() == 7);
            assert("select"@.len() == 6);
            assert(wildcard_select_shape(toks@, 1));
            assert(keyword_at(toks@, 0, "explain"@));
            assert(!keyword_at(toks@, 0, "select"@));
        }
    }
    if peek_keyword(&toks, 0, "select") {
        let (stmt, p) = match parse_select(&toks, 0) {
            Ok(x) => x,
            Err(e) => {
                return Err(e);
            },
        };
        if p != toks.len() {
            return Err(ZakuError::ParseError(String::from_str("trailing tokens")));
        }
        match create_df(&stmt, df) {
            Ok(d) => Ok(Stmt::Select(d)),
            Err(e) => Err(e),
        }
    } else if peek_keyword(&toks, 0, "explain") {
        let (stmt, p) = match parse_select(&toks, 1) {
            Ok(x) => x,
            Err(e) => {
                return Err(e);
            },
        };
        if p != toks.len() {
            return Err(ZakuError::ParseError(String::from_str("trailing tokens")));
        }
        match create_df(&stmt, df) {
            Ok(d) => Ok(Stmt::Explain(d)),
            Err(e) => Err(e),
        }
    } else if peek_keyword(&toks, 0, "copy") {
        if !(1 < toks.len() && matches!(&toks[1], Token::LParen)) {
            return Err(ZakuError::ParseError(String::from_str("expected ( after COPY")));
        }
        let (stmt, p) = match parse_select(&toks, 2) {
            Ok(x) => x,
            Err(e) => {
                return Err(e);
            },
        };
        if !(p < toks.len() && matches!(&toks[p], Token::RParen)) {
            return Err(ZakuError::ParseError(String::from_str("expected ) after the query")));
        }
        if !peek_keyword(&toks, p + 1, "to") {
            return Err(ZakuError::ParseError(String::from_str("expected TO")));
        }
        if !(p + 2 < toks.len()) {
            return Err(ZakuError::ParseError(String::from_str("expected a file path")));
        }
        let path = match &toks[p + 2] {
            Token::Str(s2) => s2.clone(),
            _ => {
                return Err(ZakuError::ParseError(String::from_str("expected a quoted path")));
            },
        };
        if p + 3 != toks.len() {
            return Err(ZakuError::ParseError(String::from_str("trailing tokens")));
        }
        match create_df(&stmt, df) {
            Ok(d) => Ok(Stmt::CopyTo(d, path)),
            Err(e) => Err(e),
        }
    } else {
        Err(ZakuError::ParseError(String::from_str("only SELECT, EXPLAIN and COPY are supported")))
    }
}

} // verus!