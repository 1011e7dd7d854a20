//! The condition mini-language: `variable op literal` comparisons, chained
//! by ` AND ` or ` OR ` (one connective kind per condition string), and
//! their evaluation against the variable store.
use vstd::prelude::*;
use crate::errors::{EvalError, ParseError};
use crate::numbers::{parse_i64, parse_i64_spec};
use crate::state::State;
use crate::table::str_eq;
use crate::text::{
    contains_spec, contains_str, ident_pred, is_ident_start, is_ident_start_char, is_space,
    matches_at, run_end, space_pred, split_on, split_spec, trim, trim_spec,
};
use crate::value::ValueView;

verus! {

/// One `variable op literal` comparison.
#[derive(Debug)]
pub struct SimpleCondition {
    pub variable: String,
    pub operator: String,
    pub value: String,
}

/// The mathematical content of a `SimpleCondition`.
pub struct SimpleConditionView {
    pub variable: Seq<char>,
    pub operator: Seq<char>,
    pub value: Seq<char>,
}

impl View for SimpleCondition {
    type V = SimpleConditionView;

    open spec fn view(&self) -> SimpleConditionView {
        SimpleConditionView {
            variable: self.variable@,
            operator: self.operator@,
            value: self.value@,
        }
    }
}

/// A guard over the variable store: one comparison, or a chain of
/// comparisons joined by connectives, the first connective absent.
#[derive(Debug)]
pub enum Condition {
    Simple(SimpleCondition),
    Compound(Vec<(Option<String>, SimpleCondition)>),
}

/// The mathematical content of a `Condition`.
pub enum ConditionView {
    Simple(SimpleConditionView),
    Compound(Seq<(Option<Seq<char>>, SimpleConditionView)>),
}

/// The view of one connective/comparison pair.
pub open spec fn pair_view(p: (Option<String>, SimpleCondition)) -> (
    Option<Seq<char>>,
    SimpleConditionView,
) {
    (
        match p.0 {
            Some(s) => Some(s@),
            None => None,
        },
        p.1@,
    )
}

/// The views of a sequence of connective/comparison pairs.
pub open spec fn pairs_view(ps: Seq<(Option<String>, SimpleCondition)>) -> Seq<
    (Option<Seq<char>>, SimpleConditionView),
> {
    ps.map_values(|p: (Option<String>, SimpleCondition)| pair_view(p))
}

impl View for Condition {
    type V = ConditionView;

    open spec fn view(&self) -> ConditionView {
        match self {
            Condition::Simple(c) => ConditionView::Simple(c@),
            Condition::Compound(ps) => ConditionView::Compound(pairs_view(ps@)),
        }
    }
}

pub open spec fn op_gt() -> Seq<char> {
    seq!['>']
}

pub open spec fn op_lt() -> Seq<char> {
    seq!['<']
}

pub open spec fn op_ge() -> Seq<char> {
    seq!['>', '=']
}

pub open spec fn op_le() -> Seq<char> {
    seq!['<', '=']
}

pub open spec fn op_eqeq() -> Seq<char> {
    seq!['=', '=']
}

pub open spec fn op_ne() -> Seq<char> {
    seq!['!', '=']
}

pub open spec fn word_and() -> Seq<char> {
    seq!['A', 'N', 'D']
}

pub open spec fn word_or() -> Seq<char> {
    seq!['O', 'R']
}

pub open spec fn sep_and() -> Seq<char> {
    seq![' ', 'A', 'N', 'D', ' ']
}

pub open spec fn sep_or() -> Seq<char> {
    seq![' ', 'O', 'R', ' ']
}

/// The comparison operator standing at position `i`, trying two-character
/// operators before one-character ones.
pub open spec fn cmp_op_at(s: Seq<char>, i: int) -> Option<Seq<char>> {
    if matches_at(s, i, op_ge()) {
        Some(op_ge())
    } else if matches_at(s, i, op_le()) {
        Some(op_le())
    } else if matches_at(s, i, op_eqeq()) {
        Some(op_eqeq())
    } else if matches_at(s, i, op_ne()) {
        Some(op_ne())
    } else if matches_at(s, i, op_gt()) {
        Some(op_gt())
    } else if matches_at(s, i, op_lt()) {
        Some(op_lt())
    } else {
        None
    }
}

/// The comparison denoted by one condition string: after trimming, an
/// identifier, optional whitespace, a comparison operator, optional
/// whitespace, and a non-empty literal running to the end.
pub open spec fn parse_simple_spec(s: Seq<char>) -> Option<SimpleConditionView> {
    let t = trim_spec(s);
    if t.len() == 0 || !is_ident_start(t[0]) {
        None
    } else {
        let ve = run_end(t, 1, ident_pred());
        let i = run_end(t, ve, space_pred());
        match cmp_op_at(t, i) {
            None => None,
            Some(op) => {
                let j = run_end(t, i + op.len(), space_pred());
                if j < t.len() {
                    Some(
                        SimpleConditionView {
                            variable: t.subrange(0, ve),
                            operator: op,
                            value: t.subrange(j, t.len() as int),
                        },
                    )
                } else {
                    None
                }
            },
        }
    }
}

/// All segments of a split condition string, parsed as comparisons; one
/// malformed segment fails the whole condition.
pub open spec fn parse_segments_spec(parts: Seq<Seq<char>>) -> Option<Seq<SimpleConditionView>>
    decreases parts.len(),
{
    if parts.len() == 0 {
        Some(Seq::empty())
    } else {
        match parse_simple_spec(parts[0]) {
            None => None,
            Some(c) => match parse_segments_spec(parts.drop_first()) {
                None => None,
                Some(cs) => Some(seq![c] + cs),
            },
        }
    }
}

/// Attaches the connective word to every comparison but the first.
pub open spec fn with_ops(cs: Seq<SimpleConditionView>, w: Seq<char>) -> Seq<
    (Option<Seq<char>>, SimpleConditionView),
> {
    Seq::new(
        cs.len(),
        |i: int|
            if i == 0 {
                (None::<Seq<char>>, cs[i])
            } else {
                (Some(w), cs[i])
            },
    )
}

/// The condition denoted by a trimmed string holding a connective: split on
/// ` AND ` first, and only if that yields a single piece on ` OR `.
pub open spec fn parse_compound_spec(t: Seq<char>) -> Option<ConditionView> {
    let pa = split_spec(t, sep_and());
    if pa.len() > 1 {
        match parse_segments_spec(pa) {
            None => None,
            Some(cs) => Some(ConditionView::Compound(with_ops(cs, word_and()))),
        }
    } else {
        let po = split_spec(t, sep_or());
        if po.len() > 1 {
            match parse_segments_spec(po) {
                None => None,
                Some(cs) => Some(ConditionView::Compound(with_ops(cs, word_or()))),
            }
        } else {
            match parse_simple_spec(t) {
                None => None,
                Some(c) => Some(ConditionView::Simple(c)),
            }
        }
    }
}

/// The condition denoted by a condition string: compound when it contains
/// ` AND ` or ` OR `, simple otherwise.
pub open spec fn parse_condition_spec(s: Seq<char>) -> Option<ConditionView> {
    let t = trim_spec(s);
    if contains_spec(t, sep_and()) || contains_spec(t, sep_or()) {
        parse_compound_spec(t)
    } else {
        match parse_simple_spec(t) {
            None => None,
            Some(c) => Some(ConditionView::Simple(c)),
        }
    }
}

/// Parses one `variable op literal` comparison.
pub fn parse_simple_condition(condition_str: &str) -> (r: Result<SimpleCondition, ParseError>)
    ensures
        match r {
            Ok(c) => parse_simple_spec(condition_str@) == Some(c@),
            Err(_) => parse_simple_spec(condition_str@) is None,
        },
{
    let t = trim(condition_str);
    let n = t.unicode_len();
    if n == 0 || !is_ident_start_char(t.get_char(0)) {
        return Err(ParseError {});
    }
    let ve = crate::text::skip_ident_chars(t, 1);
    let i = crate::text::skip_spaces(t, ve);
    let (op, op_len): (&str, usize) = if crate::text::starts_at(t, i, ">=") {
        (">=", 2)
    } else if crate::text::starts_at(t, i, "<=") {
        ("<=", 2)
    } else if crate::text::starts_at(t, i, "==") {
        ("==", 2)
    } else if crate::text::starts_at(t, i, "!=") {
        ("!=", 2)
    } else if crate::text::starts_at(t, i, ">") {
        (">", 1)
    } else if crate::text::starts_at(t, i, "<") {
        ("<", 1)
    } else {
        proof {
            lemma_reveal_cmp_ops();
        }
        return Err(ParseError {});
    };
    proof {
        lemma_reveal_cmp_ops();
    }
    let j = crate::text::skip_spaces(t, i + op_len);
    if j < n {
        let variable = t.substring_char(0, ve).to_owned();
        let value = t.substring_char(j, n).to_owned();
        Ok(SimpleCondition { variable, operator: op.to_owned(), value })
    } else {
        Err(ParseError {})
    }
}

/// Connects the operator string literals with their character sequences.
proof fn lemma_reveal_cmp_ops()
    ensures
        ">="@ == op_ge(),
        "<="@ == op_le(),
        "=="@ == op_eqeq(),
        "!="@ == op_ne(),
        ">"@ == op_gt(),
        "<"@ == op_lt(),
        "AND"@ == word_and(),
        "OR"@ == word_or(),
        " AND "@ == sep_and(),
        " OR "@ == sep_or(),
{
    reveal_strlit(">=");
    reveal_strlit("<=");
    reveal_strlit("==");
    reveal_strlit("!=");
    reveal_strlit(">");
    reveal_strlit("<");
    reveal_strlit("AND");
    reveal_strlit("OR");
    reveal_strlit(" AND ");
    reveal_strlit(" OR ");
    assert(">="@ =~= op_ge());
    assert("<="@ =~= op_le());
    assert("=="@ =~= op_eqeq());
    assert("!="@ =~= op_ne());
    assert(">"@ =~= op_gt());
    assert("<"@ =~= op_lt());
    assert("AND"@ =~= word_and());
    assert("OR"@ =~= word_or());
    assert(" AND "@ =~= sep_and());
    assert(" OR "@ =~= sep_or());
}

fn parse_parts(parts: &Vec<String>, k: usize) -> (r: Result<Vec<SimpleCondition>, ParseError>)
    requires
        k <= parts@.len(),
    ensures
        match r {
            Ok(cs) => parse_segments_spec(parts@.map_values(|x: String| x@).skip(k as int))
                == Some(cs@.map_values(|c: SimpleCondition| c@)),
            Err(_) => parse_segments_spec(parts@.map_values(|x: String| x@).skip(k as int))
                is None,
        },
    decreases parts@.len() - k,
{
    let ghost tail = parts@.map_values(|x: String| x@).skip(k as int);
    if k == parts.len() {
        proof {
            assert(tail =~= Seq::<Seq<char>>::empty());
            assert(Seq::<SimpleCondition>::empty().map_values(|c: SimpleCondition| c@)
                =~= Seq::<SimpleConditionView>::empty());
        }
        return Ok(Vec::new());
    }
    proof {
        assert(tail.drop_first() =~= parts@.map_values(|x: String| x@).skip(k + 1));
        assert(tail[0] == parts@[k as int]@);
    }
    match parse_simple_condition(parts[k].as_str()) {
        Err(e) => Err(e),
        Ok(c) => match parse_parts(parts, k + 1) {
            Err(e) => Err(e),
            Ok(mut cs) => {
                cs.insert(0, c);
                proof {
                    assert(cs@.map_values(|c: SimpleCondition| c@) =~= seq![cs@[0]@]
                        + cs@.drop_first().map_values(|c: SimpleCondition| c@));
                }
                Ok(cs)
            },
        },
    }
}

fn attach_ops(cs: Vec<SimpleCondition>, word: &str) -> (r: Vec<
    (Option<String>, SimpleCondition),
>)
    ensures
        pairs_view(r@) == with_ops(cs@.map_values(|c: SimpleCondition| c@), word@),
{
    let ghost goal = with_ops(cs@.map_values(|c: SimpleCondition| c@), word@);
    let mut r: Vec<(Option<String>, SimpleCondition)> = Vec::new();
    let n = cs.len();
    let rest = cs;
    let mut k: usize = 0;
    while k < n
        invariant
            0 <= k <= n,
            n == rest@.len(),
            goal == with_ops(rest@.map_values(|c: SimpleCondition| c@), word@),
            r@.len() == k,
            forall|i: int| 0 <= i < k ==> pair_view(r@[i]) == goal[i],
        decreases n - k,
    {
        let c = rest[k].clone_simple();
        if k == 0 {
            r.push((None, c));
        } else {
            r.push((Some(word.to_owned()), c));
        }
        k += 1;
    }
    proof {
        assert(pairs_view(r@) =~= goal);
    }
    r
}

/// Parses a condition string that holds a connective, splitting on ` AND `
/// first and on ` OR ` only if the first split yields a single piece.
pub fn parse_compound_condition(condition_str: &str) -> (r: Result<Condition, ParseError>)
    ensures
        match r {
            Ok(c) => parse_compound_spec(trim_spec(condition_str@)) == Some(c@),
            Err(_) => parse_compound_spec(trim_spec(condition_str@)) is None,
        },
{
    proof {
        lemma_reveal_cmp_ops();
    }
    let t = trim(condition_str);
    let pa = split_on(t, " AND ");
    proof {
        assert(pa@.map_values(|x: String| x@) =~= split_spec(t@, sep_and()));
        assert(pa@.map_values(|x: String| x@).skip(0) =~= pa@.map_values(|x: String| x@));
    }
    if pa.len() > 1 {
        match parse_parts(&pa, 0) {
            Err(e) => Err(e),
            Ok(cs) => Ok(Condition::Compound(attach_ops(cs, "AND"))),
        }
    } else {
        let po = split_on(t, " OR ");
        proof {
            assert(po@.map_values(|x: String| x@) =~= split_spec(t@, sep_or()));
            assert(po@.map_values(|x: String| x@).skip(0) =~= po@.map_values(
                |x: String| x@,
            ));
        }
        if po.len() > 1 {
            match parse_parts(&po, 0) {
                Err(e) => Err(e),
                Ok(cs) => Ok(Condition::Compound(attach_ops(cs, "OR"))),
            }
        } else {
            match parse_simple_condition(t) {
                Err(e) => {
                    proof {
                        crate::text::lemma_trim_spec_shape(condition_str@);
                        assert(trim_spec(t@) == trim_spec(condition_str@)) by {
                            lemma_trim_idempotent(condition_str@);
                        };
                    }
                    Err(e)
                },
                Ok(c) => {
                    proof {
                        lemma_trim_idempotent(condition_str@);
                    }
                    Ok(Condition::Simple(c))
                },
            }
        }
    }
}

/// Trimming an already-trimmed sequence changes nothing.
pub proof fn lemma_trim_idempotent(s: Seq<char>)
    ensures
        trim_spec(trim_spec(s)) == trim_spec(s),
{
    crate::text::lemma_trim_spec_shape(s);
    if trim_spec(s).len() > 0 {
        crate::text::lemma_trim_spec_identity(trim_spec(s));
    } else {
        assert(trim_spec(trim_spec(s)) =~= trim_spec(s));
    }
}

/// Parses a condition string: compound when it contains ` AND ` or ` OR `,
/// simple otherwise.
pub fn parse_condition(condition_str: &str) -> (r: Result<Condition, ParseError>)
    ensures
        match r {
            Ok(c) => parse_condition_spec(condition_str@) == Some(c@),
            Err(_) => parse_condition_spec(condition_str@) is None,
        },
{
    proof {
        lemma_reveal_cmp_ops();
        lemma_trim_idempotent(condition_str@);
    }
    let t = trim(condition_str);
    if contains_str(t, " AND ") || contains_str(t, " OR ") {
        parse_compound_condition(t)
    } else {
        match parse_simple_condition(t) {
            Err(e) => Err(e),
            Ok(c) => Ok(Condition::Simple(c)),
        }
    }
}

/// What a comparison operator says of the stored value `l` and the literal
/// value `rv`.
pub open spec fn cmp_eval(op: Seq<char>, l: int, rv: int) -> Option<bool> {
    if op == op_gt() {
        Some(l > rv)
    } else if op == op_lt() {
        Some(l < rv)
    } else if op == op_ge() {
        Some(l >= rv)
    } else if op == op_le() {
        Some(l <= rv)
    } else if op == op_eqeq() {
        Some(l == rv)
    } else if op == op_ne() {
        Some(l != rv)
    } else {
        None
    }
}

/// How one comparison evaluates: the variable must be present and hold an
/// integer, the literal must parse as an integer, and the operator must be
/// known.
pub open spec fn eval_simple_spec(c: SimpleConditionView, m: Map<Seq<char>, ValueView>) -> Result<
    bool,
    EvalError,
> {
    if !m.contains_key(c.variable) {
        Err(EvalError::MissingVariable)
    } else {
        match m[c.variable] {
            ValueView::Int(l) => match parse_i64_spec(c.value) {
                Some(rv) => match cmp_eval(c.operator, l, rv) {
                    Some(b) => Ok(b),
                    None => Err(EvalError::UnknownOperator),
                },
                None => Err(EvalError::BadLiteral),
            },
            _ => Err(EvalError::NotNumeric),
        }
    }
}

/// The left-to-right fold of a compound condition from pair `i` on, with
/// accumulated result `acc`; every operand is evaluated, without
/// short-circuiting.
pub open spec fn eval_compound_from(
    cs: Seq<(Option<Seq<char>>, SimpleConditionView)>,
    i: int,
    acc: bool,
    m: Map<Seq<char>, ValueView>,
) -> Result<bool, EvalError>
    decreases cs.len() - i,
{
    if i < 0 || i >= cs.len() {
        Ok(acc)
    } else {
        match eval_simple_spec(cs[i].1, m) {
            Err(e) => Err(e),
            Ok(b) => match cs[i].0 {
                Some(w) => if w == word_and() {
                    eval_compound_from(cs, i + 1, acc && b, m)
                } else if w == word_or() {
                    eval_compound_from(cs, i + 1, acc || b, m)
                } else {
                    Err(EvalError::UnknownLogical)
                },
                None => Err(EvalError::UnknownLogical),
            },
        }
    }
}

/// How a condition evaluates against the store.
pub open spec fn eval_condition_spec(c: ConditionView, m: Map<Seq<char>, ValueView>) -> Result<
    bool,
    EvalError,
> {
    match c {
        ConditionView::Simple(sc) => eval_simple_spec(sc, m),
        ConditionView::Compound(cs) => if cs.len() == 0 {
            Ok(true)
        } else {
            match eval_simple_spec(cs[0].1, m) {
                Err(e) => Err(e),
                Ok(b) => eval_compound_from(cs, 1, b, m),
            }
        },
    }
}

/// The canonical text of a comparison: variable, operator and literal
/// separated by single spaces.
pub open spec fn format_simple_spec(c: SimpleConditionView) -> Seq<char> {
    c.variable + seq![' '] + c.operator + seq![' '] + c.value
}

/// A well-formed comparison: the variable matches the identifier grammar,
/// the operator is one of the six, and the literal is non-empty with no
/// whitespace at either end.
pub open spec fn wf_simple(c: SimpleConditionView) -> bool {
    &&& c.variable.len() >= 1
    &&& is_ident_start(c.variable[0])
    &&& (forall|i: int| 0 <= i < c.variable.len() ==> crate::text::is_ident_char(
        #[trigger] c.variable[i],
    ))
    &&& (c.operator == op_gt() || c.operator == op_lt() || c.operator == op_ge()
        || c.operator == op_le() || c.operator == op_eqeq() || c.operator == op_ne())
    &&& c.value.len() >= 1
    &&& !is_space(c.value[0])
    &&& !is_space(c.value.last())
}

/// At a position holding one of the six operators, followed by a space
/// when the operator is one character long, the longest-first scan finds
/// exactly that operator.
proof fn lemma_cmp_op_at_exact(f: Seq<char>, i: int, op: Seq<char>)
    requires
        matches_at(f, i, op),
        op == op_gt() || op == op_lt() || op == op_ge() || op == op_le() || op
            == op_eqeq() || op == op_ne(),
        op.len() == 1 ==> i + 1 < f.len() && f[i + 1] == ' ',
    ensures
        cmp_op_at(f, i) == Some(op),
{
    assert(f.subrange(i, i + op.len()) == op);
    assert(f[i] == op[0]) by {
        assert(f.subrange(i, i + op.len())[0] == f[i]);
    }
    if op.len() == 2 {
        assert(f[i + 1] == op[1]) by {
            assert(f.subrange(i, i + op.len())[1] == f[i + 1]);
        }
    }
    assert(!matches_at(f, i, op_ge()) || op == op_ge()) by {
        if matches_at(f, i, op_ge()) {
            assert(f.subrange(i, i + 2)[0] == f[i] && f.subrange(i, i + 2)[1] == f[i + 1]);
        }
    }
    assert(!matches_at(f, i, op_le()) || op == op_le()) by {
        if matches_at(f, i, op_le()) {
            assert(f.subrange(i, i + 2)[0] == f[i] && f.subrange(i, i + 2)[1] == f[i + 1]);
        }
    }
    assert(!matches_at(f, i, op_eqeq()) || op == op_eqeq()) by {
        if matches_at(f, i, op_eqeq()) {
            assert(f.subrange(i, i + 2)[0] == f[i] && f.subrange(i, i + 2)[1] == f[i + 1]);
        }
    }
    assert(!matches_at(f, i, op_ne()) || op == op_ne()) by {
        if matches_at(f, i, op_ne()) {
            assert(f.subrange(i, i + 2)[0] == f[i] && f.subrange(i, i + 2)[1] == f[i + 1]);
        }
    }
}

/// Whatever the simple parser accepts is well-formed: the variable matches
/// the identifier grammar, the operator is one of the six, and the literal
/// is non-empty with no whitespace at either end.
pub proof fn lemma_parse_simple_wf(s: Seq<char>)
    ensures
        parse_simple_spec(s) is Some ==> wf_simple(parse_simple_spec(s).unwrap()),
{
    if parse_simple_spec(s) is Some {
        let t = trim_spec(s);
        crate::text::lemma_trim_spec_shape(s);
        let ve = run_end(t, 1, ident_pred());
        crate::text::lemma_run_end(t, 1, ident_pred());
        let i = run_end(t, ve, space_pred());
        crate::text::lemma_run_end(t, ve, space_pred());
        let op = cmp_op_at(t, i).unwrap();
        let j = run_end(t, i + op.len(), space_pred());
        crate::text::lemma_run_end(t, i + op.len(), space_pred());
        let c = parse_simple_spec(s).unwrap();
        assert(c.variable[0] == t[0]);
        assert(forall|k: int| 0 <= k < c.variable.len() ==> #[trigger] c.variable[k]
            == t[k]);
        assert(c.value[0] == t[j]);
        assert(c.value.last() == t.last());
    }
}

/// Round trip over the full grammar: parsing any text the simple parser
/// accepts and formatting the result gives a text that parses back to the
/// same comparison — whitespace normalization is exactly what formatting
/// performs. The one reservation: a literal that itself holds a ` AND ` or
/// ` OR ` connective would make the formatted text read as compound.
pub proof fn lemma_parse_format_round_trip(s: Seq<char>)
    requires
        parse_simple_spec(s) is Some,
        !contains_spec(format_simple_spec(parse_simple_spec(s).unwrap()), sep_and()),
        !contains_spec(format_simple_spec(parse_simple_spec(s).unwrap()), sep_or()),
    ensures
        parse_condition_spec(format_simple_spec(parse_simple_spec(s).unwrap())) == Some(
            ConditionView::Simple(parse_simple_spec(s).unwrap()),
        ),
{
    lemma_parse_simple_wf(s);
    lemma_simple_round_trip(parse_simple_spec(s).unwrap());
}

/// Round trip: the canonical text of a well-formed comparison parses back
/// to that same comparison, so long as its literal does not smuggle in a
/// ` AND ` or ` OR ` connective (such a text would be read as compound).
pub proof fn lemma_simple_round_trip(c: SimpleConditionView)
    requires
        wf_simple(c),
        !contains_spec(format_simple_spec(c), sep_and()),
        !contains_spec(format_simple_spec(c), sep_or()),
    ensures
        parse_condition_spec(format_simple_spec(c)) == Some(ConditionView::Simple(c)),
{
    let f = format_simple_spec(c);
    let vl = c.variable.len() as int;
    let ol = c.operator.len() as int;
    let j = vl + 2 + ol;
    assert(f.len() == vl + 2 + ol + c.value.len());
    assert forall|i: int| 0 <= i < vl implies f[i] == c.variable[i] by {}
    assert(f[vl] == ' ');
    assert forall|i: int| 0 <= i < ol implies f[vl + 1 + i] == c.operator[i] by {}
    assert(f[vl + 1 + ol] == ' ');
    assert forall|i: int| 0 <= i < c.value.len() implies f[j + i] == c.value[i] by {}
    assert(f[0] == c.variable[0]);
    assert(f.last() == c.value.last());
    assert(!is_space(f[0]));
    crate::text::lemma_trim_spec_identity(f);
    assert(trim_spec(f) == f);
    // the variable is the identifier run
    assert forall|i: int| 1 <= i < vl implies crate::text::ident_pred()(f[i]) by {
        assert(f[i] == c.variable[i]);
    }
    assert(!crate::text::ident_pred()(f[vl]));
    crate::text::lemma_run_end_unique(f, 1, crate::text::ident_pred(), vl);
    // one space separates the variable from the operator
    assert(crate::text::space_pred()(f[vl]));
    assert(!crate::text::space_pred()(f[vl + 1])) by {
        assert(f[vl + 1] == c.operator[0]);
    }
    crate::text::lemma_run_end_unique(f, vl, crate::text::space_pred(), vl + 1);
    // the operator stands at vl + 1 and the scan finds exactly it
    assert(matches_at(f, vl + 1, c.operator)) by {
        assert(f.subrange(vl + 1, vl + 1 + ol) =~= c.operator);
    }
    lemma_cmp_op_at_exact(f, vl + 1, c.operator);
    // one space separates the operator from the literal
    assert(crate::text::space_pred()(f[vl + 1 + ol]));
    assert(!crate::text::space_pred()(f[j])) by {
        assert(f[j] == c.value[0]);
    }
    crate::text::lemma_run_end_unique(f, vl + 1 + ol, crate::text::space_pred(), j);
    assert(j < f.len());
    assert(f.subrange(0, vl) =~= c.variable);
    assert(f.subrange(j, f.len() as int) =~= c.value);
    assert(parse_simple_spec(f) == Some(c));
}

impl SimpleCondition {
    /// The canonical text of the comparison, reparsable into an equal
    /// comparison.
    pub fn format_text(&self) -> (r: String)
        ensures
            r@ == format_simple_spec(self@),
    {
        proof {
            reveal_strlit(" ");
            assert(" "@ =~= seq![' ']);
        }
        let mut r = self.variable.clone();
        r.append(" ");
        r.append(self.operator.as_str());
        r.append(" ");
        r.append(self.value.as_str());
        proof {
            assert(r@ =~= format_simple_spec(self@));
        }
        r
    }

    pub fn clone_simple(&self) -> (r: SimpleCondition)
        ensures
            r@ == self@,
    {
        SimpleCondition {
            variable: self.variable.clone(),
            operator: self.operator.clone(),
            value: self.value.clone(),
        }
    }

    /// Evaluates the comparison against the store.
    pub fn evaluate(&self, state: &State) -> (r: Result<bool, EvalError>)
        requires
            state.wf(),
        ensures
            r == eval_simple_spec(self@, state@),
    {
        proof {
            lemma_reveal_cmp_ops();
        }
        let v = match state.get(self.variable.as_str()) {
            None => {
                return Err(EvalError::MissingVariable);
            },
            Some(v) => v,
        };
        let l = match v.as_i64() {
            None => {
                return Err(EvalError::NotNumeric);
            },
            Some(l) => l,
        };
        let rv = match parse_i64(self.value.as_str()) {
            None => {
                return Err(EvalError::BadLiteral);
            },
            Some(rv) => rv,
        };
        let op = self.operator.as_str();
        if str_eq(op, ">") {
            Ok(l > rv)
        } else if str_eq(op, "<") {
            Ok(l < rv)
        } else if str_eq(op, ">=") {
            Ok(l >= rv)
        } else if str_eq(op, "<=") {
            Ok(l <= rv)
        } else if str_eq(op, "==") {
            Ok(l == rv)
        } else if str_eq(op, "!=") {
            Ok(l != rv)
        } else {
            Err(EvalError::UnknownOperator)
        }
    }
}

fn eval_pairs(
    cs: &Vec<(Option<String>, SimpleCondition)>,
    i: usize,
    acc: bool,
    state: &State,
) -> (r: Result<bool, EvalError>)
    requires
        state.wf(),
        i <= cs@.len(),
    ensures
        r == eval_compound_from(pairs_view(cs@), i as int, acc, state@),
    decreases cs@.len() - i,
{
    proof {
        lemma_reveal_cmp_ops();
    }
    if i == cs.len() {
        return Ok(acc);
    }
    proof {
        assert(pairs_view(cs@)[i as int] == pair_view(cs@[i as int]));
    }
    let p = &cs[i];
    match p.1.evaluate(state) {
        Err(e) => Err(e),
        Ok(b) => match &p.0 {
            Some(w) => {
                if str_eq(w.as_str(), "AND") {
                    eval_pairs(cs, i + 1, acc && b, state)
                } else if str_eq(w.as_str(), "OR") {
                    eval_pairs(cs, i + 1, acc || b, state)
                } else {
                    Err(EvalError::UnknownLogical)
                }
            },
            None => Err(EvalError::UnknownLogical),
        },
    }
}

impl Condition {
    /// Evaluates the condition against the store: a compound condition is
    /// folded left to right, evaluating every operand.
    pub fn evaluate(&self, state: &State) -> (r: Result<bool, EvalError>)
        requires
            state.wf(),
        ensures
            r == eval_condition_spec(self@, state@),
    {
        match self {
            Condition::Simple(c) => c.evaluate(state),
            Condition::Compound(cs) => {
                if cs.len() == 0 {
                    return Ok(true);
                }
                proof {
                    assert(pairs_view(cs@)[0] == pair_view(cs@[0]));
                }
                match cs[0].1.evaluate(state) {
                    Err(e) => Err(e),
                    Ok(b) => eval_pairs(cs, 1, b, state),
                }
            },
        }
    }

}

} // verus!
