//! The grammar of the language, rule by rule: what each rule matches at a
//! position of the source text, and the farthest position at which a rule
//! that was tried could not go on.

use crate::lexeme::{DecimalView, ExprView, StmtView, ValueView};
use crate::resources::SyntaxError;
use crate::semantics::{op_add, op_less};
use crate::text::{decimal_value, is_alpha, is_digit, is_ident_char, is_space};
use vstd::prelude::*;

verus! {

/// The result of trying a rule at a position: what it matched and where
/// the match ends, if it matched; and the farthest position at which
/// something tried on the way failed (0 where nothing failed).
pub struct Parsed<T> {
    pub ok: Option<(T, int)>,
    pub far: int,
}

impl<T> Parsed<T> {
    /// What was matched.
    pub open spec fn val(self) -> T {
        (self.ok->0).0
    }

    /// The position behind the match.
    pub open spec fn end(self) -> int {
        (self.ok->0).1
    }

    /// The rule matched, and the match starts at `pos`, is not empty and
    /// lies within the text.
    pub open spec fn advances(self, s: Seq<char>, pos: int) -> bool {
        self.ok is Some && pos < self.end() <= s.len()
    }
}

/// The larger of two positions.
pub open spec fn max(a: int, b: int) -> int {
    if a >= b {
        a
    } else {
        b
    }
}

/// A match of `v` that ends at `end`.
pub open spec fn hit<T>(v: T, end: int, far: int) -> Parsed<T> {
    Parsed { ok: Some((v, end)), far }
}

/// No match.
pub open spec fn miss<T>(far: int) -> Parsed<T> {
    Parsed { ok: None, far }
}

/// The first of two alternatives that matches; a failed first alternative
/// leaves its farthest failure behind.
pub open spec fn or_else<T>(a: Parsed<T>, b: Parsed<T>) -> Parsed<T> {
    if a.ok is Some {
        a
    } else {
        Parsed { ok: b.ok, far: max(a.far, b.far) }
    }
}

/// The same result with one more failure position taken into account.
pub open spec fn noting<T>(p: Parsed<T>, far: int) -> Parsed<T> {
    Parsed { ok: p.ok, far: max(p.far, far) }
}

/// The character `c` stands at `pos`.
pub open spec fn at(s: Seq<char>, pos: int, c: char) -> bool {
    0 <= pos < s.len() && s[pos] == c
}

/// The characters of `w` stand at `pos`.
pub open spec fn word_at(s: Seq<char>, pos: int, w: Seq<char>) -> bool {
    0 <= pos && pos + w.len() <= s.len() && s.subrange(pos, pos + w.len()) == w
}

/// The position behind the line that `pos` is in: behind its line feed, or
/// the end of the text.
pub open spec fn line_end(s: Seq<char>, pos: int) -> int
    decreases s.len() - pos,
{
    if pos < 0 || pos >= s.len() {
        pos
    } else if s[pos] == '\n' {
        pos + 1
    } else {
        line_end(s, pos + 1)
    }
}

/// The position behind the first `*/` at or after `pos`, if there is one.
pub open spec fn comment_end(s: Seq<char>, pos: int) -> Option<int>
    decreases s.len() - pos,
{
    if pos < 0 || pos + 2 > s.len() {
        None
    } else if s[pos] == '*' && s[pos + 1] == '/' {
        Some(pos + 2)
    } else {
        comment_end(s, pos + 1)
    }
}

/// The position behind the blanks and comments that start at `pos`. A
/// comment runs from `//` to the end of its line, or from `/*` to the next
/// `*/`; a `/*` that is never closed is no comment.
pub open spec fn skip(s: Seq<char>, pos: int) -> int
    decreases s.len() - pos,
{
    if pos < 0 || pos >= s.len() {
        pos
    } else if is_space(s[pos]) {
        skip(s, pos + 1)
    } else if at(s, pos, '/') && at(s, pos + 1, '/') {
        let e = line_end(s, pos + 2);
        if pos < e <= s.len() {
            skip(s, e)
        } else {
            pos
        }
    } else if at(s, pos, '/') && at(s, pos + 1, '*') {
        match comment_end(s, pos + 2) {
            Some(e) => if pos < e <= s.len() {
                skip(s, e)
            } else {
                pos
            },
            None => pos,
        }
    } else {
        pos
    }
}

/// The position behind the identifier characters that start at `pos`.
pub open spec fn ident_end(s: Seq<char>, pos: int) -> int
    decreases s.len() - pos,
{
    if 0 <= pos < s.len() && is_ident_char(s[pos]) {
        ident_end(s, pos + 1)
    } else {
        pos
    }
}

/// The position behind the digits that start at `pos`.
pub open spec fn digits_end(s: Seq<char>, pos: int) -> int
    decreases s.len() - pos,
{
    if 0 <= pos < s.len() && is_digit(s[pos]) {
        digits_end(s, pos + 1)
    } else {
        pos
    }
}

/// The position of the first double quote at or after `pos`, or the end of
/// the text.
pub open spec fn quote_pos(s: Seq<char>, pos: int) -> int
    decreases s.len() - pos,
{
    if 0 <= pos < s.len() && s[pos] != '"' {
        quote_pos(s, pos + 1)
    } else {
        pos
    }
}

/// An identifier: a letter, then letters, digits and underscores as far as
/// they go.
pub open spec fn identifier(s: Seq<char>, pos: int) -> Parsed<Seq<char>> {
    if 0 <= pos < s.len() && is_alpha(s[pos]) {
        let e = ident_end(s, pos + 1);
        hit(s.subrange(pos, e), e, 0)
    } else {
        miss(pos)
    }
}

/// An integer: digits as far as they go, denoting a number that 64 bits
/// with a sign can hold.
pub open spec fn integer(s: Seq<char>, pos: int) -> Parsed<i64> {
    let e = digits_end(s, pos);
    if pos < e && decimal_value(s.subrange(pos, e)) <= i64::MAX {
        hit(decimal_value(s.subrange(pos, e)) as i64, e, 0)
    } else {
        miss(pos)
    }
}

/// A decimal number: digits, a point, digits.
pub open spec fn decimal(s: Seq<char>, pos: int) -> Parsed<DecimalView> {
    let e1 = digits_end(s, pos);
    let e2 = digits_end(s, e1 + 1);
    if e1 <= pos {
        miss(pos)
    } else if !at(s, e1, '.') {
        miss(e1)
    } else if e2 <= e1 + 1 {
        miss(e1 + 1)
    } else {
        hit(DecimalView { whole: s.subrange(pos, e1), frac: s.subrange(e1 + 1, e2) }, e2, 0)
    }
}

/// A string: what stands between a double quote and the next one.
pub open spec fn string(s: Seq<char>, pos: int) -> Parsed<Seq<char>> {
    if !at(s, pos, '"') {
        miss(pos)
    } else {
        let q = quote_pos(s, pos + 1);
        if q < s.len() {
            hit(s.subrange(pos + 1, q), q + 1, 0)
        } else {
            miss(s.len() as int)
        }
    }
}

/// A boolean: the word `true` or the word `false`.
pub open spec fn boolean(s: Seq<char>, pos: int) -> Parsed<bool> {
    if word_at(s, pos, "true"@) {
        hit(true, pos + 4, 0)
    } else if word_at(s, pos, "false"@) {
        hit(false, pos + 5, 0)
    } else {
        miss(pos)
    }
}

/// The value of a declaration: a decimal number, else an integer, else a
/// string, else a boolean.
pub open spec fn value(s: Seq<char>, pos: int) -> Parsed<ValueView> {
    let d = decimal(s, pos);
    let i = integer(s, pos);
    let t = string(s, pos);
    let b = boolean(s, pos);
    if d.ok is Some {
        hit(ValueView::Float(d.val()), d.end(), d.far)
    } else if i.ok is Some {
        hit(ValueView::Int(i.val()), i.end(), max(d.far, i.far))
    } else if t.ok is Some {
        hit(ValueView::Str(t.val()), t.end(), max(max(d.far, i.far), t.far))
    } else if b.ok is Some {
        hit(ValueView::Bool(b.val()), b.end(), max(max(max(d.far, i.far), t.far), b.far))
    } else {
        miss(max(max(max(d.far, i.far), t.far), b.far))
    }
}

/// An operand that stands alone: a boolean, else an integer, else a
/// variable.
pub open spec fn atom(s: Seq<char>, pos: int) -> Parsed<ExprView> {
    let b = boolean(s, pos);
    let i = integer(s, pos);
    let n = identifier(s, pos);
    if b.ok is Some {
        hit(ExprView::Literal(ValueView::Bool(b.val())), b.end(), b.far)
    } else if i.ok is Some {
        hit(ExprView::Literal(ValueView::Int(i.val())), i.end(), max(b.far, i.far))
    } else if n.ok is Some {
        hit(ExprView::Variable(n.val()), n.end(), max(max(b.far, i.far), n.far))
    } else {
        miss(max(max(b.far, i.far), n.far))
    }
}

/// A factor: an operand that stands alone, else an expression in round
/// brackets.
pub open spec fn factor(s: Seq<char>, pos: int) -> Parsed<ExprView>
    decreases s.len() - pos, 0nat,
{
    let a = atom(s, pos);
    if a.ok is Some {
        a
    } else if !at(s, pos, '(') {
        miss(max(a.far, pos))
    } else {
        let inner_at = skip(s, pos + 1);
        if pos < inner_at <= s.len() {
            let e = rel_expr(s, inner_at);
            if !e.advances(s, inner_at) {
                miss(max(a.far, e.far))
            } else {
                let close = skip(s, e.end());
                if at(s, close, ')') {
                    hit(e.val(), close + 1, max(a.far, e.far))
                } else {
                    miss(max(max(a.far, e.far), close))
                }
            }
        } else {
            miss(a.far)
        }
    }
}

/// A sum: a factor, then `+` and a sum where they follow. It groups to the
/// right.
pub open spec fn add_expr(s: Seq<char>, pos: int) -> Parsed<ExprView>
    decreases s.len() - pos, 1nat,
{
    let left = factor(s, pos);
    if !left.advances(s, pos) {
        miss(left.far)
    } else {
        let plus = skip(s, left.end());
        let right_at = skip(s, plus + 1);
        if at(s, plus, '+') && pos < right_at <= s.len() {
            let right = add_expr(s, right_at);
            if right.advances(s, right_at) {
                hit(
                    ExprView::BinaryOp(Box::new(left.val()), op_add(), Box::new(right.val())),
                    right.end(),
                    max(left.far, right.far),
                )
            } else {
                noting(left, right.far)
            }
        } else {
            noting(left, plus)
        }
    }
}

/// A comparison: a sum, then `<` and a comparison where they follow. It
/// groups to the right.
pub open spec fn rel_expr(s: Seq<char>, pos: int) -> Parsed<ExprView>
    decreases s.len() - pos, 2nat,
{
    let left = add_expr(s, pos);
    if !left.advances(s, pos) {
        miss(left.far)
    } else {
        let less = skip(s, left.end());
        let right_at = skip(s, less + 1);
        if at(s, less, '<') && pos < right_at <= s.len() {
            let right = rel_expr(s, right_at);
            if right.advances(s, right_at) {
                hit(
                    ExprView::BinaryOp(Box::new(left.val()), op_less(), Box::new(right.val())),
                    right.end(),
                    max(left.far, right.far),
                )
            } else {
                noting(left, right.far)
            }
        } else {
            noting(left, less)
        }
    }
}

/// An expression.
pub open spec fn expr(s: Seq<char>, pos: int) -> Parsed<ExprView> {
    rel_expr(s, pos)
}

/// The arguments that follow an argument which ended at `end`: each one
/// behind a comma. A comma that no argument follows is not taken.
pub open spec fn args_tail(s: Seq<char>, end: int) -> Parsed<Seq<ExprView>>
    decreases s.len() - end,
{
    let next_at = skip(s, end + 1);
    if at(s, end, ',') && end < next_at <= s.len() {
        let e = expr(s, next_at);
        if e.advances(s, next_at) {
            let rest = args_tail(s, e.end());
            hit(seq![e.val()] + rest.val(), rest.end(), max(e.far, rest.far))
        } else {
            hit(Seq::empty(), end, e.far)
        }
    } else {
        hit(Seq::empty(), end, end)
    }
}

/// The arguments of a call: none, or expressions with commas between them.
/// No blank may stand in front of a comma.
pub open spec fn args(s: Seq<char>, pos: int) -> Parsed<Seq<ExprView>> {
    let e = expr(s, pos);
    if e.advances(s, pos) {
        let rest = args_tail(s, e.end());
        hit(seq![e.val()] + rest.val(), rest.end(), max(e.far, rest.far))
    } else {
        hit(Seq::empty(), pos, e.far)
    }
}

/// The parameters that follow a parameter which ended at `end`.
pub open spec fn params_tail(s: Seq<char>, end: int) -> Parsed<Seq<Seq<char>>>
    decreases s.len() - end,
{
    let next_at = skip(s, end + 1);
    if at(s, end, ',') && end < next_at <= s.len() {
        let n = identifier(s, next_at);
        if n.advances(s, next_at) {
            let rest = params_tail(s, n.end());
            hit(seq![n.val()] + rest.val(), rest.end(), max(n.far, rest.far))
        } else {
            hit(Seq::empty(), end, n.far)
        }
    } else {
        hit(Seq::empty(), end, end)
    }
}

/// The parameters of a function: none, or names with commas between them.
/// No blank may stand in front of a comma.
pub open spec fn params(s: Seq<char>, pos: int) -> Parsed<Seq<Seq<char>>> {
    let n = identifier(s, pos);
    if n.advances(s, pos) {
        let rest = params_tail(s, n.end());
        hit(seq![n.val()] + rest.val(), rest.end(), max(n.far, rest.far))
    } else {
        hit(Seq::empty(), pos, n.far)
    }
}

/// A declaration: `var name : type = value ;`.
pub open spec fn var_decl(s: Seq<char>, pos: int) -> Parsed<StmtView> {
    let name = identifier(s, skip(s, pos + 3));
    let colon = skip(s, name.end());
    let ty = identifier(s, skip(s, colon + 1));
    let eq = skip(s, ty.end());
    let v = value(s, skip(s, eq + 1));
    let semi = skip(s, v.end());
    if !word_at(s, pos, "var"@) {
        miss(pos)
    } else if name.ok is None {
        miss(name.far)
    } else if !at(s, colon, ':') {
        miss(colon)
    } else if ty.ok is None {
        miss(ty.far)
    } else if !at(s, eq, '=') {
        miss(eq)
    } else if v.ok is None {
        miss(v.far)
    } else if !at(s, semi, ';') {
        miss(max(v.far, semi))
    } else {
        hit(
            StmtView::VarDecl { name: name.val(), type_annotation: ty.val(), value: v.val() },
            semi + 1,
            v.far,
        )
    }
}

/// An assignment: `name = expression ;`.
pub open spec fn assignment(s: Seq<char>, pos: int) -> Parsed<StmtView> {
    let name = identifier(s, pos);
    let eq = skip(s, name.end());
    let e = expr(s, skip(s, eq + 1));
    let semi = skip(s, e.end());
    if name.ok is None {
        miss(name.far)
    } else if !at(s, eq, '=') {
        miss(eq)
    } else if e.ok is None {
        miss(e.far)
    } else if !at(s, semi, ';') {
        miss(max(e.far, semi))
    } else {
        hit(StmtView::Assignment { name: name.val(), expr: e.val() }, semi + 1, e.far)
    }
}

/// A print statement: `print ( name ) ;`. Only a name can be printed.
pub open spec fn print_stmt(s: Seq<char>, pos: int) -> Parsed<StmtView> {
    let open = skip(s, pos + 5);
    let name = identifier(s, skip(s, open + 1));
    let close = skip(s, name.end());
    let semi = skip(s, close + 1);
    if !word_at(s, pos, "print"@) {
        miss(pos)
    } else if !at(s, open, '(') {
        miss(open)
    } else if name.ok is None {
        miss(name.far)
    } else if !at(s, close, ')') {
        miss(close)
    } else if !at(s, semi, ';') {
        miss(semi)
    } else {
        hit(StmtView::PrintExpr(ExprView::Variable(name.val())), semi + 1, 0)
    }
}

/// A return statement: `return expression ;`.
pub open spec fn return_stmt(s: Seq<char>, pos: int) -> Parsed<StmtView> {
    let e = expr(s, skip(s, pos + 6));
    let semi = skip(s, e.end());
    if !word_at(s, pos, "return"@) {
        miss(pos)
    } else if e.ok is None {
        miss(e.far)
    } else if !at(s, semi, ';') {
        miss(max(e.far, semi))
    } else {
        hit(StmtView::Return(e.val()), semi + 1, e.far)
    }
}

/// A call statement: `name ( arguments ) ;`.
pub open spec fn function_call(s: Seq<char>, pos: int) -> Parsed<StmtView> {
    let name = identifier(s, pos);
    let open = skip(s, name.end());
    let a = args(s, skip(s, open + 1));
    let close = skip(s, a.end());
    let semi = skip(s, close + 1);
    if name.ok is None {
        miss(name.far)
    } else if !at(s, open, '(') {
        miss(open)
    } else if !at(s, close, ')') {
        miss(max(a.far, close))
    } else if !at(s, semi, ';') {
        miss(max(a.far, semi))
    } else {
        hit(StmtView::FunctionCall { name: name.val(), arguments: a.val() }, semi + 1, a.far)
    }
}

/// The head of a `for` loop, up to and with its `{`:
/// `for name in integer .. integer {`.
pub open spec fn for_head(s: Seq<char>, pos: int) -> Parsed<(Seq<char>, i64, i64)> {
    let name = identifier(s, skip(s, pos + 3));
    let word = skip(s, name.end());
    let from = integer(s, skip(s, word + 2));
    let dots = skip(s, from.end());
    let to = integer(s, skip(s, dots + 2));
    let open = skip(s, to.end());
    if !word_at(s, pos, "for"@) {
        miss(pos)
    } else if name.ok is None {
        miss(name.far)
    } else if !word_at(s, word, "in"@) {
        miss(word)
    } else if from.ok is None {
        miss(from.far)
    } else if !word_at(s, dots, ".."@) {
        miss(dots)
    } else if to.ok is None {
        miss(to.far)
    } else if !at(s, open, '{') {
        miss(open)
    } else {
        hit((name.val(), from.val(), to.val()), open + 1, 0)
    }
}

/// The head of a `while` loop, up to and with its `{`:
/// `while ( expression ) {`.
pub open spec fn while_head(s: Seq<char>, pos: int) -> Parsed<ExprView> {
    let paren = skip(s, pos + 5);
    let e = expr(s, skip(s, paren + 1));
    let close = skip(s, e.end());
    let open = skip(s, close + 1);
    if !word_at(s, pos, "while"@) {
        miss(pos)
    } else if !at(s, paren, '(') {
        miss(paren)
    } else if e.ok is None {
        miss(e.far)
    } else if !at(s, close, ')') {
        miss(max(e.far, close))
    } else if !at(s, open, '{') {
        miss(max(e.far, open))
    } else {
        hit(e.val(), open + 1, e.far)
    }
}

/// The head of a function declaration, up to and with its `{`:
/// `fn name ( parameters ) {`.
pub open spec fn fn_head(s: Seq<char>, pos: int) -> Parsed<(Seq<char>, Seq<Seq<char>>)> {
    let name = identifier(s, skip(s, pos + 2));
    let paren = skip(s, name.end());
    let p = params(s, skip(s, paren + 1));
    let close = skip(s, p.end());
    let open = skip(s, close + 1);
    if !word_at(s, pos, "fn"@) {
        miss(pos)
    } else if name.ok is None {
        miss(name.far)
    } else if !at(s, paren, '(') {
        miss(paren)
    } else if !at(s, close, ')') {
        miss(max(p.far, close))
    } else if !at(s, open, '{') {
        miss(max(p.far, open))
    } else {
        hit((name.val(), p.val()), open + 1, p.far)
    }
}

/// A statement: the first of the forms that matches, tried in this order:
/// function declaration, return, declaration, assignment, print, `for`,
/// `while`, call.
pub open spec fn statement(s: Seq<char>, pos: int) -> Parsed<StmtView>
    decreases s.len() - pos, 1nat,
{
    or_else(
        function_decl(s, pos),
        or_else(
            return_stmt(s, pos),
            or_else(
                var_decl(s, pos),
                or_else(
                    assignment(s, pos),
                    or_else(
                        print_stmt(s, pos),
                        or_else(
                            for_loop(s, pos),
                            or_else(while_loop(s, pos), function_call(s, pos)),
                        ),
                    ),
                ),
            ),
        ),
    )
}

/// Statements as far as they go, with blanks and comments between and
/// behind them. The match ends where the next statement was looked for.
pub open spec fn statements(s: Seq<char>, pos: int) -> Parsed<Seq<StmtView>>
    decreases s.len() - pos, 2nat,
{
    let st = statement(s, pos);
    if st.advances(s, pos) {
        let next_at = skip(s, st.end());
        if pos < next_at <= s.len() {
            let rest = statements(s, next_at);
            hit(seq![st.val()] + rest.val(), rest.end(), max(st.far, rest.far))
        } else {
            hit(Seq::empty(), pos, st.far)
        }
    } else {
        hit(Seq::empty(), pos, st.far)
    }
}

/// The body of a loop or function behind its `{`: statements, then `}`.
pub open spec fn block(s: Seq<char>, pos: int) -> Parsed<Seq<StmtView>>
    decreases s.len() - pos, 3nat,
{
    let start = skip(s, pos);
    if pos <= start <= s.len() {
        let body = statements(s, start);
        if at(s, body.end(), '}') {
            hit(body.val(), body.end() + 1, body.far)
        } else {
            miss(max(body.far, body.end()))
        }
    } else {
        miss(pos)
    }
}

/// A `for` loop: its head and its body.
pub open spec fn for_loop(s: Seq<char>, pos: int) -> Parsed<StmtView>
    decreases s.len() - pos, 0nat,
{
    let h = for_head(s, pos);
    if !h.advances(s, pos) {
        miss(h.far)
    } else {
        let b = block(s, h.end());
        if b.ok is None {
            miss(max(h.far, b.far))
        } else {
            hit(
                StmtView::ForLoop {
                    var_name: h.val().0,
                    start: h.val().1,
                    end: h.val().2,
                    body: b.val(),
                },
                b.end(),
                max(h.far, b.far),
            )
        }
    }
}

/// A `while` loop: its head and its body.
pub open spec fn while_loop(s: Seq<char>, pos: int) -> Parsed<StmtView>
    decreases s.len() - pos, 0nat,
{
    let h = while_head(s, pos);
    if !h.advances(s, pos) {
        miss(h.far)
    } else {
        let b = block(s, h.end());
        if b.ok is None {
            miss(max(h.far, b.far))
        } else {
            hit(StmtView::While { condition: h.val(), body: b.val() }, b.end(), max(h.far, b.far))
        }
    }
}

/// A function declaration: its head and its body.
pub open spec fn function_decl(s: Seq<char>, pos: int) -> Parsed<StmtView>
    decreases s.len() - pos, 0nat,
{
    let h = fn_head(s, pos);
    if !h.advances(s, pos) {
        miss(h.far)
    } else {
        let b = block(s, h.end());
        if b.ok is None {
            miss(max(h.far, b.far))
        } else {
            hit(
                StmtView::Function { name: h.val().0, parameters: h.val().1, body: b.val() },
                b.end(),
                max(h.far, b.far),
            )
        }
    }
}

/// A program: blanks and comments, then statements up to the end of the
/// text. Where the statements end before the text does, the text is no
/// program, and the error names the farthest position at which a rule
/// failed.
pub open spec fn program(s: Seq<char>) -> Result<Seq<StmtView>, SyntaxError> {
    let body = statements(s, skip(s, 0));
    if body.end() == s.len() {
        Ok(body.val())
    } else {
        Err(SyntaxError { position: max(body.far, body.end()) as usize })
    }
}

/// The end of a line lies at or behind the position and within the text.
pub proof fn lemma_line_end_bounds(s: Seq<char>, pos: int)
    requires
        0 <= pos <= s.len(),
    ensures
        pos <= line_end(s, pos) <= s.len(),
    decreases s.len() - pos,
{
    if pos < s.len() && s[pos] != '\n' {
        lemma_line_end_bounds(s, pos + 1);
    }
}

/// The end of a comment lies behind the position and within the text.
pub proof fn lemma_comment_end_bounds(s: Seq<char>, pos: int)
    requires
        0 <= pos <= s.len(),
    ensures
        comment_end(s, pos) matches Some(e) ==> pos + 2 <= e <= s.len(),
    decreases s.len() - pos,
{
    if pos + 2 <= s.len() && !(s[pos] == '*' && s[pos + 1] == '/') {
        lemma_comment_end_bounds(s, pos + 1);
    }
}

/// Skipping blanks and comments goes forward and stays within the text.
pub proof fn lemma_skip_bounds(s: Seq<char>, pos: int)
    requires
        0 <= pos <= s.len(),
    ensures
        pos <= skip(s, pos) <= s.len(),
    decreases s.len() - pos,
{
    if pos < s.len() {
        if is_space(s[pos]) {
            lemma_skip_bounds(s, pos + 1);
        } else if at(s, pos, '/') && at(s, pos + 1, '/') {
            lemma_line_end_bounds(s, pos + 2);
            lemma_skip_bounds(s, line_end(s, pos + 2));
        } else if at(s, pos, '/') && at(s, pos + 1, '*') {
            lemma_comment_end_bounds(s, pos + 2);
            match comment_end(s, pos + 2) {
                Some(e) => {
                    lemma_skip_bounds(s, e);
                },
                None => {},
            }
        }
    }
}

/// A comment that is closed is skipped whole: the conditions under which
/// `skip` goes on behind a comment hold of every comment.
pub proof fn lemma_skip_takes_comments(s: Seq<char>, pos: int)
    requires
        0 <= pos < s.len(),
        at(s, pos, '/'),
    ensures
        at(s, pos + 1, '/') ==> skip(s, pos) == skip(s, line_end(s, pos + 2)),
        at(s, pos + 1, '*') && comment_end(s, pos + 2) is Some ==> skip(s, pos) == skip(
            s,
            comment_end(s, pos + 2)->0,
        ),
{
    if at(s, pos + 1, '/') {
        lemma_line_end_bounds(s, pos + 2);
    }
    if at(s, pos + 1, '*') {
        lemma_comment_end_bounds(s, pos + 2);
    }
}

/// The end of a run of identifier characters, of digits, and the next
/// quote lie at or behind the position and within the text.
pub proof fn lemma_run_bounds(s: Seq<char>, pos: int)
    requires
        0 <= pos <= s.len(),
    ensures
        pos <= ident_end(s, pos) <= s.len(),
        pos <= digits_end(s, pos) <= s.len(),
        pos <= quote_pos(s, pos) <= s.len(),
    decreases s.len() - pos,
{
    if pos < s.len() {
        lemma_run_bounds(s, pos + 1);
    }
}

/// A name, a number, a string or a boolean that matches is not empty and
/// lies within the text.
pub proof fn lemma_token_advances(s: Seq<char>, pos: int)
    requires
        0 <= pos <= s.len(),
    ensures
        identifier(s, pos).ok is Some ==> identifier(s, pos).advances(s, pos),
        integer(s, pos).ok is Some ==> integer(s, pos).advances(s, pos),
        decimal(s, pos).ok is Some ==> decimal(s, pos).advances(s, pos),
        string(s, pos).ok is Some ==> string(s, pos).advances(s, pos),
        boolean(s, pos).ok is Some ==> boolean(s, pos).advances(s, pos),
        value(s, pos).ok is Some ==> value(s, pos).advances(s, pos),
        atom(s, pos).ok is Some ==> atom(s, pos).advances(s, pos),
{
    reveal_strlit("true");
    reveal_strlit("false");
    lemma_run_bounds(s, pos);
    if pos < s.len() {
        lemma_run_bounds(s, pos + 1);
    }
    let e1 = digits_end(s, pos);
    if e1 < s.len() {
        lemma_run_bounds(s, e1 + 1);
    }
}

/// An expression that matches is not empty and lies within the text: the
/// conditions on the operands in the rules hold of every match.
pub proof fn lemma_expression_advances(s: Seq<char>, pos: int)
    requires
        0 <= pos <= s.len(),
    ensures
        factor(s, pos).ok is Some ==> factor(s, pos).advances(s, pos),
        add_expr(s, pos).ok is Some ==> add_expr(s, pos).advances(s, pos),
        rel_expr(s, pos).ok is Some ==> rel_expr(s, pos).advances(s, pos),
    decreases s.len() - pos, 3nat,
{
    lemma_rel_advances(s, pos);
    lemma_add_advances(s, pos);
    lemma_factor_advances(s, pos);
}

/// A factor that matches is not empty and lies within the text.
proof fn lemma_factor_advances(s: Seq<char>, pos: int)
    requires
        0 <= pos <= s.len(),
    ensures
        factor(s, pos).ok is Some ==> factor(s, pos).advances(s, pos),
    decreases s.len() - pos, 0nat,
{
    lemma_token_advances(s, pos);
    if atom(s, pos).ok is None && at(s, pos, '(') {
        lemma_skip_bounds(s, pos + 1);
        let inner_at = skip(s, pos + 1);
        lemma_rel_advances(s, inner_at);
        let e = rel_expr(s, inner_at);
        if e.advances(s, inner_at) {
            lemma_skip_bounds(s, e.end());
        }
    }
}

/// A sum that matches is not empty and lies within the text.
proof fn lemma_add_advances(s: Seq<char>, pos: int)
    requires
        0 <= pos <= s.len(),
    ensures
        add_expr(s, pos).ok is Some ==> add_expr(s, pos).advances(s, pos),
    decreases s.len() - pos, 1nat,
{
    lemma_factor_advances(s, pos);
    let left = factor(s, pos);
    if left.advances(s, pos) {
        lemma_skip_bounds(s, left.end());
        let plus = skip(s, left.end());
        if at(s, plus, '+') {
            lemma_skip_bounds(s, plus + 1);
            lemma_add_advances(s, skip(s, plus + 1));
        }
    }
}

/// A comparison that matches is not empty and lies within the text.
proof fn lemma_rel_advances(s: Seq<char>, pos: int)
    requires
        0 <= pos <= s.len(),
    ensures
        rel_expr(s, pos).ok is Some ==> rel_expr(s, pos).advances(s, pos),
    decreases s.len() - pos, 2nat,
{
    lemma_add_advances(s, pos);
    let left = add_expr(s, pos);
    if left.advances(s, pos) {
        lemma_skip_bounds(s, left.end());
        let less = skip(s, left.end());
        if at(s, less, '<') {
            lemma_skip_bounds(s, less + 1);
            lemma_rel_advances(s, skip(s, less + 1));
        }
    }
}

/// The arguments that follow an argument always match, and end within the
/// text, at or behind the position.
pub proof fn lemma_args_tail_bounds(s: Seq<char>, end: int)
    requires
        0 <= end <= s.len(),
    ensures
        args_tail(s, end).ok is Some,
        end <= args_tail(s, end).end() <= s.len(),
    decreases s.len() - end,
{
    if at(s, end, ',') {
        lemma_skip_bounds(s, end + 1);
        let next_at = skip(s, end + 1);
        let e = expr(s, next_at);
        if e.advances(s, next_at) {
            lemma_args_tail_bounds(s, e.end());
        }
    }
}

/// The parameters that follow a parameter always match, and end within
/// the text, at or behind the position.
pub proof fn lemma_params_tail_bounds(s: Seq<char>, end: int)
    requires
        0 <= end <= s.len(),
    ensures
        params_tail(s, end).ok is Some,
        end <= params_tail(s, end).end() <= s.len(),
    decreases s.len() - end,
{
    if at(s, end, ',') {
        lemma_skip_bounds(s, end + 1);
        let next_at = skip(s, end + 1);
        let n = identifier(s, next_at);
        if n.advances(s, next_at) {
            lemma_params_tail_bounds(s, n.end());
        }
    }
}

/// Lists of arguments and of parameters always match, and end within the
/// text, at or behind the position.
pub proof fn lemma_list_bounds(s: Seq<char>, pos: int)
    requires
        0 <= pos <= s.len(),
    ensures
        args(s, pos).ok is Some,
        pos <= args(s, pos).end() <= s.len(),
        params(s, pos).ok is Some,
        pos <= params(s, pos).end() <= s.len(),
{
    let e = expr(s, pos);
    if e.advances(s, pos) {
        lemma_args_tail_bounds(s, e.end());
    }
    let n = identifier(s, pos);
    if n.advances(s, pos) {
        lemma_params_tail_bounds(s, n.end());
    }
}

/// A statement without a body that matches is not empty and lies within
/// the text.
pub proof fn lemma_simple_statement_advances(s: Seq<char>, pos: int)
    requires
        0 <= pos <= s.len(),
    ensures
        var_decl(s, pos).ok is Some ==> var_decl(s, pos).advances(s, pos),
        assignment(s, pos).ok is Some ==> assignment(s, pos).advances(s, pos),
        print_stmt(s, pos).ok is Some ==> print_stmt(s, pos).advances(s, pos),
        return_stmt(s, pos).ok is Some ==> return_stmt(s, pos).advances(s, pos),
        function_call(s, pos).ok is Some ==> function_call(s, pos).advances(s, pos),
{
    reveal_strlit("var");
    reveal_strlit("print");
    reveal_strlit("return");
    if var_decl(s, pos).ok is Some {
        lemma_skip_bounds(s, pos + 3);
        let name = identifier(s, skip(s, pos + 3));
        lemma_token_advances(s, skip(s, pos + 3));
        lemma_skip_bounds(s, name.end());
        let colon = skip(s, name.end());
        lemma_skip_bounds(s, colon + 1);
        let ty = identifier(s, skip(s, colon + 1));
        lemma_token_advances(s, skip(s, colon + 1));
        lemma_skip_bounds(s, ty.end());
        let eq = skip(s, ty.end());
        lemma_skip_bounds(s, eq + 1);
        let v = value(s, skip(s, eq + 1));
        lemma_token_advances(s, skip(s, eq + 1));
        lemma_skip_bounds(s, v.end());
    }
    if assignment(s, pos).ok is Some {
        let name = identifier(s, pos);
        lemma_token_advances(s, pos);
        lemma_skip_bounds(s, name.end());
        let eq = skip(s, name.end());
        lemma_skip_bounds(s, eq + 1);
        let e = expr(s, skip(s, eq + 1));
        lemma_expression_advances(s, skip(s, eq + 1));
        lemma_skip_bounds(s, e.end());
    }
    if print_stmt(s, pos).ok is Some {
        lemma_skip_bounds(s, pos + 5);
        let open = skip(s, pos + 5);
        lemma_skip_bounds(s, open + 1);
        let name = identifier(s, skip(s, open + 1));
        lemma_token_advances(s, skip(s, open + 1));
        lemma_skip_bounds(s, name.end());
        let close = skip(s, name.end());
        lemma_skip_bounds(s, close + 1);
    }
    if return_stmt(s, pos).ok is Some {
        lemma_skip_bounds(s, pos + 6);
        let e = expr(s, skip(s, pos + 6));
        lemma_expression_advances(s, skip(s, pos + 6));
        lemma_skip_bounds(s, e.end());
    }
    if function_call(s, pos).ok is Some {
        let name = identifier(s, pos);
        lemma_token_advances(s, pos);
        lemma_skip_bounds(s, name.end());
        let open = skip(s, name.end());
        lemma_skip_bounds(s, open + 1);
        let a = args(s, skip(s, open + 1));
        lemma_list_bounds(s, skip(s, open + 1));
        lemma_skip_bounds(s, a.end());
        let close = skip(s, a.end());
        lemma_skip_bounds(s, close + 1);
    }
}

/// The head of a loop or a function that matches is not empty and lies
/// within the text.
pub proof fn lemma_head_advances(s: Seq<char>, pos: int)
    requires
        0 <= pos <= s.len(),
    ensures
        for_head(s, pos).ok is Some ==> for_head(s, pos).advances(s, pos),
        while_head(s, pos).ok is Some ==> while_head(s, pos).advances(s, pos),
        fn_head(s, pos).ok is Some ==> fn_head(s, pos).advances(s, pos),
{
    reveal_strlit("for");
    reveal_strlit("in");
    reveal_strlit("..");
    reveal_strlit("while");
    reveal_strlit("fn");
    if for_head(s, pos).ok is Some {
        lemma_skip_bounds(s, pos + 3);
        let name = identifier(s, skip(s, pos + 3));
        lemma_token_advances(s, skip(s, pos + 3));
        lemma_skip_bounds(s, name.end());
        let word = skip(s, name.end());
        lemma_skip_bounds(s, word + 2);
        let from = integer(s, skip(s, word + 2));
        lemma_token_advances(s, skip(s, word + 2));
        lemma_skip_bounds(s, from.end());
        let dots = skip(s, from.end());
        lemma_skip_bounds(s, dots + 2);
        let to = integer(s, skip(s, dots + 2));
        lemma_token_advances(s, skip(s, dots + 2));
        lemma_skip_bounds(s, to.end());
    }
    if while_head(s, pos).ok is Some {
        lemma_skip_bounds(s, pos + 5);
        let paren = skip(s, pos + 5);
        lemma_skip_bounds(s, paren + 1);
        let e = expr(s, skip(s, paren + 1));
        lemma_expression_advances(s, skip(s, paren + 1));
        lemma_skip_bounds(s, e.end());
        let close = skip(s, e.end());
        lemma_skip_bounds(s, close + 1);
    }
    if fn_head(s, pos).ok is Some {
        lemma_skip_bounds(s, pos + 2);
        let name = identifier(s, skip(s, pos + 2));
        lemma_token_advances(s, skip(s, pos + 2));
        lemma_skip_bounds(s, name.end());
        let paren = skip(s, name.end());
        lemma_skip_bounds(s, paren + 1);
        let p = params(s, skip(s, paren + 1));
        lemma_list_bounds(s, skip(s, paren + 1));
        lemma_skip_bounds(s, p.end());
        let close = skip(s, p.end());
        lemma_skip_bounds(s, close + 1);
    }
}

/// A statement that matches is not empty and lies within the text, and a
/// run of statements ends within the text: the conditions on the parts in
/// the rules hold of every match.
pub proof fn lemma_statement_advances(s: Seq<char>, pos: int)
    requires
        0 <= pos <= s.len(),
    ensures
        statement(s, pos).ok is Some ==> statement(s, pos).advances(s, pos),
        statements(s, pos).ok is Some,
        pos <= statements(s, pos).end() <= s.len(),
    decreases s.len() - pos, 4nat,
{
    lemma_one_statement_advances(s, pos);
    lemma_statements_bounds(s, pos);
}

/// A statement that matches is not empty and lies within the text.
proof fn lemma_one_statement_advances(s: Seq<char>, pos: int)
    requires
        0 <= pos <= s.len(),
    ensures
        statement(s, pos).ok is Some ==> statement(s, pos).advances(s, pos),
    decreases s.len() - pos, 1nat,
{
    lemma_simple_statement_advances(s, pos);
    lemma_head_advances(s, pos);
    let f = fn_head(s, pos);
    if f.advances(s, pos) {
        lemma_block_bounds(s, f.end());
    }
    let l = for_head(s, pos);
    if l.advances(s, pos) {
        lemma_block_bounds(s, l.end());
    }
    let w = while_head(s, pos);
    if w.advances(s, pos) {
        lemma_block_bounds(s, w.end());
    }
}

/// A run of statements always matches, and ends within the text.
proof fn lemma_statements_bounds(s: Seq<char>, pos: int)
    requires
        0 <= pos <= s.len(),
    ensures
        statements(s, pos).ok is Some,
        pos <= statements(s, pos).end() <= s.len(),
    decreases s.len() - pos, 2nat,
{
    lemma_one_statement_advances(s, pos);
    let st = statement(s, pos);
    if st.advances(s, pos) {
        lemma_skip_bounds(s, st.end());
        lemma_statements_bounds(s, skip(s, st.end()));
    }
}

/// A body that matches is not empty and lies within the text.
proof fn lemma_block_bounds(s: Seq<char>, pos: int)
    requires
        0 <= pos <= s.len(),
    ensures
        block(s, pos).ok is Some ==> pos < block(s, pos).end() <= s.len(),
    decreases s.len() - pos, 3nat,
{
    lemma_skip_bounds(s, pos);
    lemma_statements_bounds(s, skip(s, pos));
}

} // verus!
