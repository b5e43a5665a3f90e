//! The parser: from source text to the syntax tree, rule by rule as the
//! grammar states them.

use crate::grammar::{
    add_expr, args, args_tail, assignment, at, atom, block, boolean, comment_end, decimal,
    digits_end, factor, fn_head, for_head, for_loop, function_call, function_decl, ident_end,
    identifier, integer, line_end, max, params, params_tail, print_stmt, program, quote_pos,
    rel_expr, return_stmt, skip, statement, statements, string, value, var_decl, while_head,
    while_loop, word_at,
};
use crate::lexeme::{
    exprs_view, lemma_stmts_view_push, names_view, stmts_view, Decimal, Expr, ExprView,
    Statement, StmtView, Value, Variable,
};
use crate::resources::SyntaxError;
use crate::text::{
    alpha, chars_of, decimal_value, digit, digit_of, ident_char, is_digit, space, text_of,
};
use vstd::prelude::*;
use vstd::string::*;

verus! {

/// Takes a failure at `pos` into account.
fn note(far: &mut usize, pos: usize)
    ensures
        *final(far) == max(*old(far) as int, pos as int),
{
    if pos > *far {
        *far = pos;
    }
}

/// Whether the character `c` stands at `pos`.
fn char_is(src: &Vec<char>, pos: usize, c: char) -> (r: bool)
    ensures
        r == at(src@, pos as int, c),
        src@.len() <= usize::MAX,
{
    pos < src.len() && src[pos] == c
}

/// Whether the characters of `w` stand at `pos`.
fn word_is(src: &Vec<char>, pos: usize, w: &str) -> (r: bool)
    ensures
        r == word_at(src@, pos as int, w@),
        src@.len() <= usize::MAX,
{
    let word = chars_of(w);
    let n = word.len();
    if pos > src.len() || n > src.len() - pos {
        return false;
    }
    let mut i: usize = 0;
    while i < n
        invariant
            pos + n <= src@.len() <= usize::MAX,
            n == word@.len(),
            word@ == w@,
            i <= n,
            src@.subrange(pos as int, pos + i) == word@.take(i as int),
        decreases n - i,
    {
        if src[pos + i] != word[i] {
            assert(src@.subrange(pos as int, pos + n)[i as int] != word@[i as int]);
            return false;
        }
        assert(src@.subrange(pos as int, pos + i + 1) =~= src@.subrange(pos as int, pos + i).push(
            word@[i as int],
        ));
        assert(word@.take(i + 1) =~= word@.take(i as int).push(word@[i as int]));
        i = i + 1;
    }
    assert(word@.take(n as int) =~= word@);
    true
}

/// The position behind the line that `pos` is in.
fn end_of_line(src: &Vec<char>, pos: usize) -> (r: usize)
    requires
        pos <= src@.len(),
    ensures
        r == line_end(src@, pos as int),
        pos <= r <= src@.len(),
        pos < src@.len() ==> pos < r,
{
    let mut i: usize = pos;
    while i < src.len()
        invariant
            pos <= i <= src@.len(),
            line_end(src@, pos as int) == line_end(src@, i as int),
        decreases src@.len() - i,
    {
        if src[i] == '\n' {
            return i + 1;
        }
        i = i + 1;
    }
    i
}

/// The position behind the first `*/` at or after `pos`, if there is one.
fn end_of_comment(src: &Vec<char>, pos: usize) -> (r: Option<usize>)
    requires
        pos <= src@.len(),
    ensures
        match r {
            Some(e) => comment_end(src@, pos as int) == Some(e as int) && pos + 2 <= e
                <= src@.len(),
            None => comment_end(src@, pos as int) is None,
        },
{
    let mut i: usize = pos;
    while i < src.len() && i + 1 < src.len()
        invariant
            pos <= i <= src@.len(),
            comment_end(src@, pos as int) == comment_end(src@, i as int),
        decreases src@.len() - i,
    {
        if src[i] == '*' && src[i + 1] == '/' {
            return Some(i + 2);
        }
        i = i + 1;
    }
    assert(comment_end(src@, i as int) is None) by {
        if i < src@.len() {
            assert(i + 2 > src@.len());
        }
    }
    None
}

/// The position behind the blanks and comments that start at `pos`.
fn skip_blank(src: &Vec<char>, pos: usize) -> (r: usize)
    requires
        pos <= src@.len(),
    ensures
        r == skip(src@, pos as int),
        pos <= r <= src@.len(),
{
    let mut i: usize = pos;
    while i < src.len()
        invariant
            pos <= i <= src@.len(),
            skip(src@, pos as int) == skip(src@, i as int),
        decreases src@.len() - i,
    {
        if space(src[i]) {
            i = i + 1;
        } else if char_is(src, i, '/') && i + 1 < src.len() && char_is(src, i + 1, '/') {
            i = end_of_line(src, i + 2);
        } else if char_is(src, i, '/') && i + 1 < src.len() && char_is(src, i + 1, '*') {
            match end_of_comment(src, i + 2) {
                Some(e) => {
                    i = e;
                },
                None => {
                    return i;
                },
            }
        } else {
            return i;
        }
    }
    i
}

/// The position behind the identifier characters that start at `pos`.
fn end_of_ident(src: &Vec<char>, pos: usize) -> (r: usize)
    requires
        pos <= src@.len(),
    ensures
        r == ident_end(src@, pos as int),
        pos <= r <= src@.len(),
{
    let mut i: usize = pos;
    while i < src.len() && ident_char(src[i])
        invariant
            pos <= i <= src@.len(),
            ident_end(src@, pos as int) == ident_end(src@, i as int),
        decreases src@.len() - i,
    {
        i = i + 1;
    }
    i
}

/// The position behind the digits that start at `pos`.
fn end_of_digits(src: &Vec<char>, pos: usize) -> (r: usize)
    requires
        pos <= src@.len(),
    ensures
        r == digits_end(src@, pos as int),
        pos <= r <= src@.len(),
        forall|j: int| pos <= j < r ==> is_digit(#[trigger] src@[j]),
{
    let mut i: usize = pos;
    while i < src.len() && digit(src[i])
        invariant
            pos <= i <= src@.len(),
            digits_end(src@, pos as int) == digits_end(src@, i as int),
            forall|j: int| pos <= j < i ==> is_digit(#[trigger] src@[j]),
        decreases src@.len() - i,
    {
        i = i + 1;
    }
    i
}

/// An identifier at `pos`.
fn parse_identifier(src: &Vec<char>, pos: usize, far: &mut usize) -> (r: Option<(String, usize)>)
    requires
        pos <= src@.len(),
    ensures
        match r {
            Some((n, end)) => identifier(src@, pos as int).ok == Some((n@, end as int)) && pos
                < end <= src@.len(),
            None => identifier(src@, pos as int).ok is None,
        },
        *final(far) == max(*old(far) as int, identifier(src@, pos as int).far),
{
    if pos < src.len() && alpha(src[pos]) {
        let end = end_of_ident(src, pos + 1);
        Some((text_of(src, pos, end), end))
    } else {
        note(far, pos);
        None
    }
}

/// An integer at `pos`.
fn parse_integer(src: &Vec<char>, pos: usize, far: &mut usize) -> (r: Option<(i64, usize)>)
    requires
        pos <= src@.len(),
    ensures
        match r {
            Some((n, end)) => integer(src@, pos as int).ok == Some((n, end as int)) && pos < end
                <= src@.len(),
            None => integer(src@, pos as int).ok is None,
        },
        *final(far) == max(*old(far) as int, integer(src@, pos as int).far),
{
    let end = end_of_digits(src, pos);
    let mut value: i64 = 0;
    let mut fits = true;
    let mut i: usize = pos;
    while i < end
        invariant
            pos <= i <= end <= src@.len(),
            forall|j: int| pos <= j < end ==> is_digit(#[trigger] src@[j]),
            fits ==> value == decimal_value(src@.subrange(pos as int, i as int)),
            !fits ==> decimal_value(src@.subrange(pos as int, i as int)) > i64::MAX,
            value >= 0,
        decreases end - i,
    {
        let d = digit_of(src[i]) as i64;
        proof {
            assert(src@.subrange(pos as int, i + 1).drop_last() =~= src@.subrange(
                pos as int,
                i as int,
            ));
            assert(src@.subrange(pos as int, i + 1).last() == src@[i as int]);
        }
        if fits {
            match value.checked_mul(10) {
                Some(tens) => match tens.checked_add(d) {
                    Some(sum) => {
                        value = sum;
                    },
                    None => {
                        fits = false;
                    },
                },
                None => {
                    fits = false;
                },
            }
        }
        i = i + 1;
    }
    if pos < end && fits {
        Some((value, end))
    } else {
        note(far, pos);
        None
    }
}

/// A decimal number at `pos`.
fn parse_decimal(src: &Vec<char>, pos: usize, far: &mut usize) -> (r: Option<(Decimal, usize)>)
    requires
        pos <= src@.len(),
    ensures
        match r {
            Some((d, end)) => decimal(src@, pos as int).ok == Some((d@, end as int)) && pos < end
                <= src@.len(),
            None => decimal(src@, pos as int).ok is None,
        },
        *final(far) == max(*old(far) as int, decimal(src@, pos as int).far),
{
    let e1 = end_of_digits(src, pos);
    if e1 <= pos {
        note(far, pos);
        return None;
    }
    if !char_is(src, e1, '.') {
        note(far, e1);
        return None;
    }
    let e2 = end_of_digits(src, e1 + 1);
    if e2 <= e1 + 1 {
        note(far, e1 + 1);
        return None;
    }
    Some((Decimal { whole: text_of(src, pos, e1), frac: text_of(src, e1 + 1, e2) }, e2))
}

/// A string at `pos`.
fn parse_string(src: &Vec<char>, pos: usize, far: &mut usize) -> (r: Option<(String, usize)>)
    requires
        pos <= src@.len(),
    ensures
        match r {
            Some((t, end)) => string(src@, pos as int).ok == Some((t@, end as int)) && pos < end
                <= src@.len(),
            None => string(src@, pos as int).ok is None,
        },
        *final(far) == max(*old(far) as int, string(src@, pos as int).far),
{
    if !char_is(src, pos, '"') {
        note(far, pos);
        return None;
    }
    let mut q: usize = pos + 1;
    while q < src.len() && src[q] != '"'
        invariant
            pos + 1 <= q <= src@.len(),
            quote_pos(src@, pos + 1) == quote_pos(src@, q as int),
        decreases src@.len() - q,
    {
        q = q + 1;
    }
    if q < src.len() {
        Some((text_of(src, pos + 1, q), q + 1))
    } else {
        note(far, src.len());
        None
    }
}

/// A boolean at `pos`.
fn parse_boolean(src: &Vec<char>, pos: usize, far: &mut usize) -> (r: Option<(bool, usize)>)
    requires
        pos <= src@.len(),
    ensures
        match r {
            Some((b, end)) => boolean(src@, pos as int).ok == Some((b, end as int)) && pos < end
                <= src@.len(),
            None => boolean(src@, pos as int).ok is None,
        },
        *final(far) == max(*old(far) as int, boolean(src@, pos as int).far),
{
    proof {
        reveal_strlit("true");
        reveal_strlit("false");
    }
    if word_is(src, pos, "true") {
        Some((true, pos + 4))
    } else if word_is(src, pos, "false") {
        Some((false, pos + 5))
    } else {
        note(far, pos);
        None
    }
}

/// The value of a declaration at `pos`.
fn parse_value(src: &Vec<char>, pos: usize, far: &mut usize) -> (r: Option<(Value, usize)>)
    requires
        pos <= src@.len(),
    ensures
        match r {
            Some((v, end)) => value(src@, pos as int).ok == Some((v@, end as int)) && pos < end
                <= src@.len(),
            None => value(src@, pos as int).ok is None,
        },
        *final(far) == max(*old(far) as int, value(src@, pos as int).far),
{
    match parse_decimal(src, pos, far) {
        Some((d, end)) => {
            return Some((Value::Float(d), end));
        },
        None => {},
    }
    match parse_integer(src, pos, far) {
        Some((n, end)) => {
            return Some((Value::Int(n), end));
        },
        None => {},
    }
    match parse_string(src, pos, far) {
        Some((t, end)) => {
            return Some((Value::Str(t), end));
        },
        None => {},
    }
    match parse_boolean(src, pos, far) {
        Some((b, end)) => Some((Value::Bool(b), end)),
        None => None,
    }
}

/// An operand that stands alone at `pos`.
fn parse_atom(src: &Vec<char>, pos: usize, far: &mut usize) -> (r: Option<(Expr, usize)>)
    requires
        pos <= src@.len(),
    ensures
        match r {
            Some((e, end)) => atom(src@, pos as int).ok == Some((e@, end as int)) && pos < end
                <= src@.len(),
            None => atom(src@, pos as int).ok is None,
        },
        *final(far) == max(*old(far) as int, atom(src@, pos as int).far),
{
    match parse_boolean(src, pos, far) {
        Some((b, end)) => {
            return Some((Expr::Literal(Value::Bool(b)), end));
        },
        None => {},
    }
    match parse_integer(src, pos, far) {
        Some((n, end)) => {
            return Some((Expr::Literal(Value::Int(n)), end));
        },
        None => {},
    }
    match parse_identifier(src, pos, far) {
        Some((n, end)) => Some((Expr::Variable(n), end)),
        None => None,
    }
}

/// A factor at `pos`.
fn parse_factor(src: &Vec<char>, pos: usize, far: &mut usize) -> (r: Option<(Expr, usize)>)
    requires
        pos <= src@.len(),
    ensures
        match r {
            Some((e, end)) => factor(src@, pos as int).ok == Some((e@, end as int)) && pos < end
                <= src@.len(),
            None => factor(src@, pos as int).ok is None,
        },
        *final(far) == max(*old(far) as int, factor(src@, pos as int).far),
    decreases src@.len() - pos, 0nat,
{
    match parse_atom(src, pos, far) {
        Some(found) => {
            return Some(found);
        },
        None => {},
    }
    if !char_is(src, pos, '(') {
        note(far, pos);
        return None;
    }
    let inner_at = skip_blank(src, pos + 1);
    let (e, end) = match parse_rel(src, inner_at, far) {
        Some(found) => found,
        None => {
            return None;
        },
    };
    let close = skip_blank(src, end);
    if char_is(src, close, ')') {
        Some((e, close + 1))
    } else {
        note(far, close);
        None
    }
}

/// A sum at `pos`.
fn parse_add(src: &Vec<char>, pos: usize, far: &mut usize) -> (r: Option<(Expr, usize)>)
    requires
        pos <= src@.len(),
    ensures
        match r {
            Some((e, end)) => add_expr(src@, pos as int).ok == Some((e@, end as int)) && pos < end
                <= src@.len(),
            None => add_expr(src@, pos as int).ok is None,
        },
        *final(far) == max(*old(far) as int, add_expr(src@, pos as int).far),
    decreases src@.len() - pos, 1nat,
{
    let (left, end) = match parse_factor(src, pos, far) {
        Some(found) => found,
        None => {
            return None;
        },
    };
    let plus = skip_blank(src, end);
    if !char_is(src, plus, '+') {
        note(far, plus);
        return Some((left, end));
    }
    let right_at = skip_blank(src, plus + 1);
    match parse_add(src, right_at, far) {
        Some((right, right_end)) => {
            let op = String::from_str("+");
            proof {
                reveal_strlit("+");
                assert(op@ =~= seq!['+']);
            }
            Some((Expr::BinaryOp(Box::new(left), op, Box::new(right)), right_end))
        },
        None => Some((left, end)),
    }
}

/// A comparison at `pos`.
fn parse_rel(src: &Vec<char>, pos: usize, far: &mut usize) -> (r: Option<(Expr, usize)>)
    requires
        pos <= src@.len(),
    ensures
        match r {
            Some((e, end)) => rel_expr(src@, pos as int).ok == Some((e@, end as int)) && pos < end
                <= src@.len(),
            None => rel_expr(src@, pos as int).ok is None,
        },
        *final(far) == max(*old(far) as int, rel_expr(src@, pos as int).far),
    decreases src@.len() - pos, 2nat,
{
    let (left, end) = match parse_add(src, pos, far) {
        Some(found) => found,
        None => {
            return None;
        },
    };
    let less = skip_blank(src, end);
    if !char_is(src, less, '<') {
        note(far, less);
        return Some((left, end));
    }
    let right_at = skip_blank(src, less + 1);
    match parse_rel(src, right_at, far) {
        Some((right, right_end)) => {
            let op = String::from_str("<");
            proof {
                reveal_strlit("<");
                assert(op@ =~= seq!['<']);
            }
            Some((Expr::BinaryOp(Box::new(left), op, Box::new(right)), right_end))
        },
        None => Some((left, end)),
    }
}

/// The arguments of a call at `pos`.
fn parse_args(src: &Vec<char>, pos: usize, far: &mut usize) -> (r: (Vec<Expr>, usize))
    requires
        pos <= src@.len(),
    ensures
        args(src@, pos as int).ok == Some((exprs_view(r.0@), r.1 as int)),
        pos <= r.1 <= src@.len(),
        *final(far) == max(*old(far) as int, args(src@, pos as int).far),
{
    let mut out: Vec<Expr> = Vec::new();
    let (first, first_end) = match parse_rel(src, pos, far) {
        Some(found) => found,
        None => {
            assert(exprs_view(out@) =~= Seq::empty());
            return (out, pos);
        },
    };
    out.push(first);
    assert(exprs_view(out@) =~= seq![first@]);
    assert(seq![first@] + args_tail(src@, first_end as int).val() =~= exprs_view(out@) + args_tail(
        src@,
        first_end as int,
    ).val());
    let mut end: usize = first_end;
    loop
        invariant
            pos < end <= src@.len(),
            args(src@, pos as int).ok is Some,
            args_tail(src@, end as int).ok is Some,
            args(src@, pos as int).val() == exprs_view(out@) + args_tail(src@, end as int).val(),
            args(src@, pos as int).end() == args_tail(src@, end as int).end(),
            max(*old(far) as int, args(src@, pos as int).far) == max(
                *far as int,
                args_tail(src@, end as int).far,
            ),
        decreases src@.len() - end,
    {
        if !char_is(src, end, ',') {
            note(far, end);
            assert(exprs_view(out@) + Seq::<ExprView>::empty() =~= exprs_view(out@));
            return (out, end);
        }
        let next_at = skip_blank(src, end + 1);
        match parse_rel(src, next_at, far) {
            Some((e, e_end)) => {
                proof {
                    let rest = args_tail(src@, e_end as int).val();
                    assert(exprs_view(out@.push(e)) =~= exprs_view(out@).push(e@));
                    assert(exprs_view(out@) + (seq![e@] + rest) =~= exprs_view(out@).push(e@)
                        + rest);
                }
                out.push(e);
                end = e_end;
            },
            None => {
                assert(exprs_view(out@) + Seq::<ExprView>::empty() =~= exprs_view(
                    out@,
                ));
                return (out, end);
            },
        }
    }
}

/// The parameters of a function at `pos`.
fn parse_params(src: &Vec<char>, pos: usize, far: &mut usize) -> (r: (Vec<String>, usize))
    requires
        pos <= src@.len(),
    ensures
        params(src@, pos as int).ok == Some((names_view(r.0@), r.1 as int)),
        pos <= r.1 <= src@.len(),
        *final(far) == max(*old(far) as int, params(src@, pos as int).far),
{
    let mut out: Vec<String> = Vec::new();
    let (first, first_end) = match parse_identifier(src, pos, far) {
        Some(found) => found,
        None => {
            assert(names_view(out@) =~= Seq::empty());
            return (out, pos);
        },
    };
    out.push(first);
    assert(names_view(out@) =~= seq![first@]);
    assert(seq![first@] + params_tail(src@, first_end as int).val() =~= names_view(out@)
        + params_tail(src@, first_end as int).val());
    let mut end: usize = first_end;
    loop
        invariant
            pos < end <= src@.len(),
            params(src@, pos as int).ok is Some,
            params_tail(src@, end as int).ok is Some,
            params(src@, pos as int).val() == names_view(out@) + params_tail(
                src@,
                end as int,
            ).val(),
            params(src@, pos as int).end() == params_tail(src@, end as int).end(),
            max(*old(far) as int, params(src@, pos as int).far) == max(
                *far as int,
                params_tail(src@, end as int).far,
            ),
        decreases src@.len() - end,
    {
        if !char_is(src, end, ',') {
            note(far, end);
            assert(names_view(out@) + Seq::<Seq<char>>::empty() =~= names_view(out@));
            return (out, end);
        }
        let next_at = skip_blank(src, end + 1);
        match parse_identifier(src, next_at, far) {
            Some((n, n_end)) => {
                proof {
                    let rest = params_tail(src@, n_end as int).val();
                    assert(names_view(out@.push(n)) =~= names_view(out@).push(n@));
                    assert(names_view(out@) + (seq![n@] + rest) =~= names_view(out@).push(n@)
                        + rest);
                }
                out.push(n);
                end = n_end;
            },
            None => {
                assert(names_view(out@) + Seq::<Seq<char>>::empty() =~= names_view(out@));
                return (out, end);
            },
        }
    }
}

/// A declaration at `pos`.
fn parse_var_decl(src: &Vec<char>, pos: usize, far: &mut usize) -> (r: Option<(Statement, usize)>)
    requires
        pos <= src@.len(),
    ensures
        match r {
            Some((st, end)) => var_decl(src@, pos as int).ok == Some((st@, end as int)) && pos
                < end <= src@.len(),
            None => var_decl(src@, pos as int).ok is None,
        },
        *final(far) == max(*old(far) as int, var_decl(src@, pos as int).far),
{
    proof {
        reveal_strlit("var");
    }
    if !word_is(src, pos, "var") {
        note(far, pos);
        return None;
    }
    let name_at = skip_blank(src, pos + 3);
    let (name, name_end) = parse_identifier(src, name_at, far)?;
    let colon = skip_blank(src, name_end);
    if !char_is(src, colon, ':') {
        note(far, colon);
        return None;
    }
    let ty_at = skip_blank(src, colon + 1);
    let (ty, ty_end) = parse_identifier(src, ty_at, far)?;
    let eq = skip_blank(src, ty_end);
    if !char_is(src, eq, '=') {
        note(far, eq);
        return None;
    }
    let value_at = skip_blank(src, eq + 1);
    let (v, v_end) = parse_value(src, value_at, far)?;
    let semi = skip_blank(src, v_end);
    if !char_is(src, semi, ';') {
        note(far, semi);
        return None;
    }
    Some((Statement::VarDecl(Variable { name, type_annotation: ty, value: v }), semi + 1))
}

/// An assignment at `pos`.
fn parse_assignment(src: &Vec<char>, pos: usize, far: &mut usize) -> (r: Option<
    (Statement, usize),
>)
    requires
        pos <= src@.len(),
    ensures
        match r {
            Some((st, end)) => assignment(src@, pos as int).ok == Some((st@, end as int)) && pos
                < end <= src@.len(),
            None => assignment(src@, pos as int).ok is None,
        },
        *final(far) == max(*old(far) as int, assignment(src@, pos as int).far),
{
    let (name, name_end) = parse_identifier(src, pos, far)?;
    let eq = skip_blank(src, name_end);
    if !char_is(src, eq, '=') {
        note(far, eq);
        return None;
    }
    let expr_at = skip_blank(src, eq + 1);
    let (e, e_end) = parse_rel(src, expr_at, far)?;
    let semi = skip_blank(src, e_end);
    if !char_is(src, semi, ';') {
        note(far, semi);
        return None;
    }
    Some((Statement::Assignment { name, expr: e }, semi + 1))
}

/// A print statement at `pos`.
fn parse_print(src: &Vec<char>, pos: usize, far: &mut usize) -> (r: Option<(Statement, usize)>)
    requires
        pos <= src@.len(),
    ensures
        match r {
            Some((st, end)) => print_stmt(src@, pos as int).ok == Some((st@, end as int)) && pos
                < end <= src@.len(),
            None => print_stmt(src@, pos as int).ok is None,
        },
        *final(far) == max(*old(far) as int, print_stmt(src@, pos as int).far),
{
    proof {
        reveal_strlit("print");
    }
    if !word_is(src, pos, "print") {
        note(far, pos);
        return None;
    }
    let open = skip_blank(src, pos + 5);
    if !char_is(src, open, '(') {
        note(far, open);
        return None;
    }
    let name_at = skip_blank(src, open + 1);
    let (name, name_end) = parse_identifier(src, name_at, far)?;
    let close = skip_blank(src, name_end);
    if !char_is(src, close, ')') {
        note(far, close);
        return None;
    }
    let semi = skip_blank(src, close + 1);
    if !char_is(src, semi, ';') {
        note(far, semi);
        return None;
    }
    Some((Statement::PrintExpr(Expr::Variable(name)), semi + 1))
}

/// A return statement at `pos`.
fn parse_return(src: &Vec<char>, pos: usize, far: &mut usize) -> (r: Option<(Statement, usize)>)
    requires
        pos <= src@.len(),
    ensures
        match r {
            Some((st, end)) => return_stmt(src@, pos as int).ok == Some((st@, end as int)) && pos
                < end <= src@.len(),
            None => return_stmt(src@, pos as int).ok is None,
        },
        *final(far) == max(*old(far) as int, return_stmt(src@, pos as int).far),
{
    proof {
        reveal_strlit("return");
    }
    if !word_is(src, pos, "return") {
        note(far, pos);
        return None;
    }
    let expr_at = skip_blank(src, pos + 6);
    let (e, e_end) = parse_rel(src, expr_at, far)?;
    let semi = skip_blank(src, e_end);
    if !char_is(src, semi, ';') {
        note(far, semi);
        return None;
    }
    Some((Statement::Return(e), semi + 1))
}

/// A call statement at `pos`.
fn parse_call(src: &Vec<char>, pos: usize, far: &mut usize) -> (r: Option<(Statement, usize)>)
    requires
        pos <= src@.len(),
    ensures
        match r {
            Some((st, end)) => function_call(src@, pos as int).ok == Some((st@, end as int))
                && pos < end <= src@.len(),
            None => function_call(src@, pos as int).ok is None,
        },
        *final(far) == max(*old(far) as int, function_call(src@, pos as int).far),
{
    let (name, name_end) = parse_identifier(src, pos, far)?;
    let open = skip_blank(src, name_end);
    if !char_is(src, open, '(') {
        note(far, open);
        return None;
    }
    let args_at = skip_blank(src, open + 1);
    let (arguments, args_end) = parse_args(src, args_at, far);
    let close = skip_blank(src, args_end);
    if !char_is(src, close, ')') {
        note(far, close);
        return None;
    }
    let semi = skip_blank(src, close + 1);
    if !char_is(src, semi, ';') {
        note(far, semi);
        return None;
    }
    Some((Statement::FunctionCall { name, arguments }, semi + 1))
}

/// The head of a `for` loop at `pos`.
fn parse_for_head(src: &Vec<char>, pos: usize, far: &mut usize) -> (r: Option<
    ((String, i64, i64), usize),
>)
    requires
        pos <= src@.len(),
    ensures
        match r {
            Some(((name, from, to), end)) => for_head(src@, pos as int).ok == Some(
                ((name@, from, to), end as int),
            ) && pos < end <= src@.len(),
            None => for_head(src@, pos as int).ok is None,
        },
        *final(far) == max(*old(far) as int, for_head(src@, pos as int).far),
{
    proof {
        reveal_strlit("for");
        reveal_strlit("in");
        reveal_strlit("..");
    }
    if !word_is(src, pos, "for") {
        note(far, pos);
        return None;
    }
    let name_at = skip_blank(src, pos + 3);
    let (name, name_end) = parse_identifier(src, name_at, far)?;
    let word = skip_blank(src, name_end);
    if !word_is(src, word, "in") {
        note(far, word);
        return None;
    }
    let from_at = skip_blank(src, word + 2);
    let (from, from_end) = parse_integer(src, from_at, far)?;
    let dots = skip_blank(src, from_end);
    if !word_is(src, dots, "..") {
        note(far, dots);
        return None;
    }
    let to_at = skip_blank(src, dots + 2);
    let (to, to_end) = parse_integer(src, to_at, far)?;
    let open = skip_blank(src, to_end);
    if !char_is(src, open, '{') {
        note(far, open);
        return None;
    }
    Some(((name, from, to), open + 1))
}

/// The head of a `while` loop at `pos`.
fn parse_while_head(src: &Vec<char>, pos: usize, far: &mut usize) -> (r: Option<(Expr, usize)>)
    requires
        pos <= src@.len(),
    ensures
        match r {
            Some((e, end)) => while_head(src@, pos as int).ok == Some((e@, end as int)) && pos
                < end <= src@.len(),
            None => while_head(src@, pos as int).ok is None,
        },
        *final(far) == max(*old(far) as int, while_head(src@, pos as int).far),
{
    proof {
        reveal_strlit("while");
    }
    if !word_is(src, pos, "while") {
        note(far, pos);
        return None;
    }
    let paren = skip_blank(src, pos + 5);
    if !char_is(src, paren, '(') {
        note(far, paren);
        return None;
    }
    let expr_at = skip_blank(src, paren + 1);
    let (e, e_end) = parse_rel(src, expr_at, far)?;
    let close = skip_blank(src, e_end);
    if !char_is(src, close, ')') {
        note(far, close);
        return None;
    }
    let open = skip_blank(src, close + 1);
    if !char_is(src, open, '{') {
        note(far, open);
        return None;
    }
    Some((e, open + 1))
}

/// The head of a function declaration at `pos`.
fn parse_fn_head(src: &Vec<char>, pos: usize, far: &mut usize) -> (r: Option<
    ((String, Vec<String>), usize),
>)
    requires
        pos <= src@.len(),
    ensures
        match r {
            Some(((name, parameters), end)) => fn_head(src@, pos as int).ok == Some(
                ((name@, names_view(parameters@)), end as int),
            ) && pos < end <= src@.len(),
            None => fn_head(src@, pos as int).ok is None,
        },
        *final(far) == max(*old(far) as int, fn_head(src@, pos as int).far),
{
    proof {
        reveal_strlit("fn");
    }
    if !word_is(src, pos, "fn") {
        note(far, pos);
        return None;
    }
    let name_at = skip_blank(src, pos + 2);
    let (name, name_end) = parse_identifier(src, name_at, far)?;
    let paren = skip_blank(src, name_end);
    if !char_is(src, paren, '(') {
        note(far, paren);
        return None;
    }
    let params_at = skip_blank(src, paren + 1);
    let (parameters, params_end) = parse_params(src, params_at, far);
    let close = skip_blank(src, params_end);
    if !char_is(src, close, ')') {
        note(far, close);
        return None;
    }
    let open = skip_blank(src, close + 1);
    if !char_is(src, open, '{') {
        note(far, open);
        return None;
    }
    Some(((name, parameters), open + 1))
}

/// A statement at `pos`.
fn parse_statement(src: &Vec<char>, pos: usize, far: &mut usize) -> (r: Option<(Statement, usize)>)
    requires
        pos <= src@.len(),
    ensures
        match r {
            Some((st, end)) => statement(src@, pos as int).ok == Some((st@, end as int)) && pos
                < end <= src@.len(),
            None => statement(src@, pos as int).ok is None,
        },
        *final(far) == max(*old(far) as int, statement(src@, pos as int).far),
    decreases src@.len() - pos, 1nat,
{
    match parse_fn(src, pos, far) {
        Some(found) => {
            return Some(found);
        },
        None => {},
    }
    match parse_return(src, pos, far) {
        Some(found) => {
            return Some(found);
        },
        None => {},
    }
    match parse_var_decl(src, pos, far) {
        Some(found) => {
            return Some(found);
        },
        None => {},
    }
    match parse_assignment(src, pos, far) {
        Some(found) => {
            return Some(found);
        },
        None => {},
    }
    match parse_print(src, pos, far) {
        Some(found) => {
            return Some(found);
        },
        None => {},
    }
    match parse_for(src, pos, far) {
        Some(found) => {
            return Some(found);
        },
        None => {},
    }
    match parse_while(src, pos, far) {
        Some(found) => {
            return Some(found);
        },
        None => {},
    }
    parse_call(src, pos, far)
}

/// Statements at `pos`, as far as they go.
fn parse_statements(src: &Vec<char>, pos: usize, far: &mut usize) -> (r: (Vec<Statement>, usize))
    requires
        pos <= src@.len(),
    ensures
        statements(src@, pos as int).ok == Some((stmts_view(r.0@), r.1 as int)),
        pos <= r.1 <= src@.len(),
        *final(far) == max(*old(far) as int, statements(src@, pos as int).far),
    decreases src@.len() - pos, 2nat,
{
    let mut out: Vec<Statement> = Vec::new();
    let mut p: usize = pos;
    assert(stmts_view(out@) + statements(src@, p as int).val() =~= statements(
        src@,
        pos as int,
    ).val());
    loop
        invariant
            pos <= p <= src@.len(),
            statements(src@, pos as int).ok is Some,
            statements(src@, p as int).ok is Some,
            statements(src@, pos as int).val() == stmts_view(out@) + statements(
                src@,
                p as int,
            ).val(),
            statements(src@, pos as int).end() == statements(src@, p as int).end(),
            max(*old(far) as int, statements(src@, pos as int).far) == max(
                *far as int,
                statements(src@, p as int).far,
            ),
        decreases src@.len() - p,
    {
        match parse_statement(src, p, far) {
            Some((st, end)) => {
                let next_at = skip_blank(src, end);
                proof {
                    let rest = statements(src@, next_at as int).val();
                    lemma_stmts_view_push(out@, st);
                    assert(stmts_view(out@) + (seq![st@] + rest) =~= stmts_view(out@).push(st@)
                        + rest);
                }
                out.push(st);
                p = next_at;
            },
            None => {
                assert(stmts_view(out@) + Seq::<StmtView>::empty() =~= stmts_view(
                    out@,
                ));
                return (out, p);
            },
        }
    }
}

/// The body of a loop or function behind its `{`.
fn parse_block(src: &Vec<char>, pos: usize, far: &mut usize) -> (r: Option<(Vec<Statement>, usize)>)
    requires
        pos <= src@.len(),
    ensures
        match r {
            Some((body, end)) => block(src@, pos as int).ok == Some(
                (stmts_view(body@), end as int),
            ) && pos < end <= src@.len(),
            None => block(src@, pos as int).ok is None,
        },
        *final(far) == max(*old(far) as int, block(src@, pos as int).far),
    decreases src@.len() - pos, 3nat,
{
    let start = skip_blank(src, pos);
    let (body, end) = parse_statements(src, start, far);
    if char_is(src, end, '}') {
        Some((body, end + 1))
    } else {
        note(far, end);
        None
    }
}

/// A `for` loop at `pos`.
fn parse_for(src: &Vec<char>, pos: usize, far: &mut usize) -> (r: Option<(Statement, usize)>)
    requires
        pos <= src@.len(),
    ensures
        match r {
            Some((st, end)) => for_loop(src@, pos as int).ok == Some((st@, end as int)) && pos
                < end <= src@.len(),
            None => for_loop(src@, pos as int).ok is None,
        },
        *final(far) == max(*old(far) as int, for_loop(src@, pos as int).far),
    decreases src@.len() - pos, 0nat,
{
    let ((var_name, start, end), head_end) = parse_for_head(src, pos, far)?;
    let (body, body_end) = parse_block(src, head_end, far)?;
    Some((Statement::ForLoop { var_name, start, end, body }, body_end))
}

/// A `while` loop at `pos`.
fn parse_while(src: &Vec<char>, pos: usize, far: &mut usize) -> (r: Option<(Statement, usize)>)
    requires
        pos <= src@.len(),
    ensures
        match r {
            Some((st, end)) => while_loop(src@, pos as int).ok == Some((st@, end as int)) && pos
                < end <= src@.len(),
            None => while_loop(src@, pos as int).ok is None,
        },
        *final(far) == max(*old(far) as int, while_loop(src@, pos as int).far),
    decreases src@.len() - pos, 0nat,
{
    let (condition, head_end) = parse_while_head(src, pos, far)?;
    let (body, body_end) = parse_block(src, head_end, far)?;
    Some((Statement::While { condition, body }, body_end))
}

/// A function declaration at `pos`.
fn parse_fn(src: &Vec<char>, pos: usize, far: &mut usize) -> (r: Option<(Statement, usize)>)
    requires
        pos <= src@.len(),
    ensures
        match r {
            Some((st, end)) => function_decl(src@, pos as int).ok == Some((st@, end as int))
                && pos < end <= src@.len(),
            None => function_decl(src@, pos as int).ok is None,
        },
        *final(far) == max(*old(far) as int, function_decl(src@, pos as int).far),
    decreases src@.len() - pos, 0nat,
{
    let ((name, parameters), head_end) = parse_fn_head(src, pos, far)?;
    let (body, body_end) = parse_block(src, head_end, far)?;
    Some((Statement::Function { name, parameters, body }, body_end))
}

/// What `parse` gives for the source text `source`: the program's
/// statements where the text is a program, else the error that names the
/// farthest position at which a rule failed.
pub open spec fn parsed_as(source: Seq<char>, r: Result<Vec<Statement>, SyntaxError>) -> bool {
    match r {
        Ok(stmts) => program(source) == Ok::<Seq<StmtView>, SyntaxError>(stmts_view(stmts@)),
        Err(e) => program(source) == Err::<Seq<StmtView>, SyntaxError>(e),
    }
}

/// Parses a program. The result is the program's statements in order, or
/// the error that says how far the parser got.
pub fn parse(source: &str) -> (r: Result<Vec<Statement>, SyntaxError>)
    ensures
        parsed_as(source@, r),
{
    let src = chars_of(source);
    let mut far: usize = 0;
    let start = skip_blank(&src, 0);
    let (stmts, end) = parse_statements(&src, start, &mut far);
    if end == src.len() {
        Ok(stmts)
    } else {
        note(&mut far, end);
        Err(SyntaxError { position: far })
    }
}

} // verus!
