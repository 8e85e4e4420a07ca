//! Admission by validation: what every check says, put together.
use vstd::prelude::*;

use crate::helpers::{decimal, decimal_text};
use crate::json::JsonValue;
use crate::text::{contains_text, occurs_at, occurs_at_index, text_contains};
use crate::types::{
    checking_spec, opt_fetched_seq, Fetched, MatchCombiner, MatchCombinerView, Matches,
};

verus! {

/// An `evalexpr` context (`HashMapContext` with the default numeric types)
/// that only this module fills, with boolean variables alone.
#[verifier::external_body]
pub struct BooleanContext {
    context: evalexpr::HashMapContext<evalexpr::DefaultNumericTypes>,
}

/// The variables a context holds, by name.
pub uninterp spec fn boolean_variables(c: BooleanContext) -> Map<Seq<char>, bool>;

/// `HashMapContext::new`: a context without variables.
#[verifier::external_body]
fn empty_context() -> (r: BooleanContext)
    ensures
        boolean_variables(r).dom() == Set::<Seq<char>>::empty(),
{
    BooleanContext { context: evalexpr::HashMapContext::new() }
}

/// `ContextWithMutableVariables::set_value` with a boolean: the variable
/// `name` now holds `value`.  It fails only when `name` holds a value of
/// another type, which a `BooleanContext` never does.
#[verifier::external_body]
fn set_boolean(c: &mut BooleanContext, name: String, value: bool)
    ensures
        boolean_variables(*final(c)) == boolean_variables(*old(c)).insert(name@, value),
{
    let _ = evalexpr::ContextWithMutableVariables::set_value(
        &mut c.context,
        name,
        evalexpr::Value::from(value),
    );
}

/// Characters that can only stand inside a name (an evalexpr literal
/// token): ASCII letters and digits, `_`, `:` and `.`.
pub open spec fn name_char(c: char) -> bool {
    ('a' <= c && c <= 'z') || ('A' <= c && c <= 'Z') || ('0' <= c && c <= '9') || c == '_' || c
        == ':' || c == '.'
}

fn is_name_char(c: char) -> (r: bool)
    ensures
        r == name_char(c),
{
    ('a' <= c && c <= 'z') || ('A' <= c && c <= 'Z') || ('0' <= c && c <= '9') || c == '_' || c
        == ':' || c == '.'
}

/// Where a scan of an expression stands: in code, inside a string literal,
/// or just after a backslash inside one.
#[derive(Debug, PartialEq, Eq, Structural, Clone, Copy)]
pub enum ScanState {
    Code,
    InString,
    Escaped,
}

/// One character further: a quote opens a string in code and closes it
/// inside one; a backslash inside a string escapes the next character.
pub open spec fn scan_step(st: ScanState, c: char) -> ScanState {
    match st {
        ScanState::Code => if c == '"' {
            ScanState::InString
        } else {
            ScanState::Code
        },
        ScanState::InString => if c == '\\' {
            ScanState::Escaped
        } else if c == '"' {
            ScanState::Code
        } else {
            ScanState::InString
        },
        ScanState::Escaped => ScanState::InString,
    }
}

/// Where the scan stands after the text `e`.
pub open spec fn scan_state(e: Seq<char>) -> ScanState
    decreases e.len(),
{
    if e.len() == 0 {
        ScanState::Code
    } else {
        scan_step(scan_state(e.drop_last()), e.last())
    }
}

fn scan_step_exec(st: ScanState, c: char) -> (r: ScanState)
    ensures
        r == scan_step(st, c),
{
    match st {
        ScanState::Code => if c == '"' {
            ScanState::InString
        } else {
            ScanState::Code
        },
        ScanState::InString => if c == '\\' {
            ScanState::Escaped
        } else if c == '"' {
            ScanState::Code
        } else {
            ScanState::InString
        },
        ScanState::Escaped => ScanState::InString,
    }
}

/// The text may hold a comment (`//` or `/*`, anywhere).
pub open spec fn has_comment(e: Seq<char>) -> bool {
    contains_text(e, "//"@) || contains_text(e, "/*"@)
}

/// `name` stands at position `i` of `e` as a whole name in code: not inside
/// a string literal, and not part of a longer name.
pub open spec fn names_at(e: Seq<char>, name: Seq<char>, i: int) -> bool {
    &&& occurs_at(e, name, i)
    &&& (i == 0 || !name_char(e[i - 1]))
    &&& (i + name.len() == e.len() || !name_char(e[i + name.len()]))
    &&& scan_state(e.take(i)) == ScanState::Code
}

/// `name` stands somewhere in `e` as a whole name in code.
pub open spec fn names(e: Seq<char>, name: Seq<char>) -> bool {
    exists|i: int| #[trigger] names_at(e, name, i)
}

/// Whether `name` stands somewhere in `e` as a whole name in code.
pub fn names_builtin(e: &str, name: &str) -> (r: bool)
    requires
        name@.len() > 0,
    ensures
        r == names(e@, name@),
{
    let n = e.unicode_len();
    let m = name.unicode_len();
    let mut st = ScanState::Code;
    let mut i: usize = 0;
    assert(e@.take(0) =~= Seq::<char>::empty());
    while i < n
        invariant
            n == e@.len(),
            m == name@.len(),
            m > 0,
            i <= n,
            st == scan_state(e@.take(i as int)),
            forall|k: int| 0 <= k < i ==> !#[trigger] names_at(e@, name@, k),
        decreases n - i,
    {
        if st == ScanState::Code && occurs_at_index(e, name, i) {
            let before_ok = i == 0 || !is_name_char(e.get_char(i - 1));
            let after_ok = i + m == n || !is_name_char(e.get_char(i + m));
            if before_ok && after_ok {
                assert(names_at(e@, name@, i as int));
                return true;
            }
        }
        let c = e.get_char(i);
        proof {
            assert(e@.take(i + 1).drop_last() =~= e@.take(i as int));
            assert(e@.take(i + 1).last() == c);
        }
        st = scan_step_exec(st, c);
        i = i + 1;
    }
    assert forall|k: int| !#[trigger] names_at(e@, name@, k) by {
        if k >= n {
            assert(!occurs_at(e@, name@, k));
        }
    }
    false
}

/// Whether evalexpr can evaluate `expr` without panicking.  Four builtins
/// panic on some arguments: `str::substring` when it cuts inside a
/// character, `shl` and `shr` when they shift by 64 or more or by a
/// negative amount, `math::abs` of the least integer.  A call of one needs
/// its name as a whole name in code; comments are refused outright, since
/// evalexpr joins the pieces of a name around a comment.
pub open spec fn evaluable(expr: Seq<char>) -> bool {
    &&& !has_comment(expr)
    &&& !names(expr, "str::substring"@)
    &&& !names(expr, "shl"@)
    &&& !names(expr, "shr"@)
    &&& !names(expr, "math::abs"@)
}

/// Whether an expression can be evaluated without panicking.
pub fn is_evaluable(expr: &str) -> (r: bool)
    ensures
        r == evaluable(expr@),
{
    proof {
        reveal_strlit("str::substring");
        reveal_strlit("shl");
        reveal_strlit("shr");
        reveal_strlit("math::abs");
    }
    !text_contains(expr, "//") && !text_contains(expr, "/*") && !names_builtin(
        expr,
        "str::substring",
    ) && !names_builtin(expr, "shl") && !names_builtin(expr, "shr") && !names_builtin(
        expr,
        "math::abs",
    )
}

/// The text uses no float function whose result may differ between
/// platforms: no `math::` builtin and no `^` (a float power).  The other
/// float operations (`+`, `-`, `*`, `/`, `%`, comparisons, rounding) are
/// exactly specified by IEEE 754.
pub open spec fn float_free(expr: Seq<char>) -> bool {
    !contains_text(expr, "math::"@) && !contains_text(expr, "^"@)
}

/// Whether the expression uses no float function whose result may differ
/// between platforms.
pub fn is_float_free(expr: &str) -> (r: bool)
    ensures
        r == float_free(expr@),
{
    !text_contains(expr, "math::") && !text_contains(expr, "^")
}

/// What `evalexpr::eval_boolean_with_context` gives for an expression that
/// is `float_free`, with these variables (and the builtin functions alone):
/// `None` when it does not evaluate to a boolean.
pub uninterp spec fn boolean_outcome(expr: Seq<char>, variables: Map<Seq<char>, bool>) -> Option<bool>;

/// `evalexpr::eval_boolean_with_context`.  Without float functions the
/// outcome depends on the text and the variables alone (the context holds
/// no functions of its own, and the crate's random-number builtin is left
/// out of the build), and the contract names it.  With them nothing is
/// stated: `math::sin`, `math::ln`, a float `^` and the like give results
/// that may differ between platforms and between calls.  The builtins that
/// can panic are kept out by `requires`.
#[verifier::external_body]
fn eval_boolean(expr: &str, c: &BooleanContext) -> (r: Option<bool>)
    requires
        evaluable(expr@),
    ensures
        float_free(expr@) ==> r == boolean_outcome(expr@, boolean_variables(*c)),
{
    evalexpr::eval_boolean_with_context(expr, &c.context).ok()
}

/// The name the verdict at position `i` goes by in an expression: `v1` for
/// the first, `v2` for the second, and so on.
pub open spec fn variable_name(i: nat) -> Seq<char> {
    "v"@ + decimal_text(i + 1)
}

/// The verdicts as variables of an expression.
pub open spec fn verdict_variables(verdicts: Seq<bool>) -> Map<Seq<char>, bool>
    decreases verdicts.len(),
{
    if verdicts.len() == 0 {
        Map::empty()
    } else {
        verdict_variables(verdicts.drop_last()).insert(
            variable_name((verdicts.len() - 1) as nat),
            verdicts.last(),
        )
    }
}

fn variable_name_of(i: usize) -> (r: String)
    requires
        i < usize::MAX,
    ensures
        r@ == variable_name(i as nat),
{
    let mut name = String::from_str("v");
    proof {
        reveal_strlit("v");
    }
    name.append(decimal(i + 1).as_str());
    name
}

/// The context an expression over the verdicts is evaluated in: `v1`,
/// `v2`, ... bound to the verdicts, and nothing else.
pub fn verdict_context(verdicts: &Vec<bool>) -> (c: BooleanContext)
    ensures
        boolean_variables(c) == verdict_variables(verdicts@),
{
    let mut c = empty_context();
    assert(boolean_variables(c) =~= verdict_variables(verdicts@.take(0)));
    let mut i: usize = 0;
    while i < verdicts.len()
        invariant
            i <= verdicts.len(),
            boolean_variables(c) == verdict_variables(verdicts@.take(i as int)),
        decreases verdicts.len() - i,
    {
        assert(verdicts@.take(i + 1).drop_last() =~= verdicts@.take(i as int));
        set_boolean(&mut c, variable_name_of(i), verdicts[i]);
        i = i + 1;
    }
    assert(verdicts@.take(i as int) =~= verdicts@);
    c
}

/// Evaluates the expression in `verdict_context(verdicts)`.
pub fn evaluate_expression(expr: &str, verdicts: &Vec<bool>) -> (r: Option<bool>)
    requires
        evaluable(expr@),
    ensures
        float_free(expr@) ==> r == boolean_outcome(expr@, verdict_variables(verdicts@)),
{
    let c = verdict_context(verdicts);
    eval_boolean(expr, &c)
}

/// The verdicts combined: some true, all true, or, for an expression, its
/// evaluation `outcome` being `true` (an expression that fails to evaluate
/// rejects).
pub open spec fn combine_spec(c: MatchCombinerView, verdicts: Seq<bool>, outcome: Option<bool>) -> bool {
    match c {
        MatchCombinerView::Any => exists|i: int| 0 <= i < verdicts.len() && verdicts[i],
        MatchCombinerView::All => forall|i: int| 0 <= i < verdicts.len() ==> verdicts[i],
        MatchCombinerView::BooleanExpression(_) => outcome == Some(true),
    }
}

/// For an expression without float functions, the verdict `r` is whether
/// it evaluates to `true` with `v1`, `v2`, ... bound to the verdicts.
pub open spec fn expression_verdict(c: MatchCombinerView, verdicts: Seq<bool>, r: bool) -> bool {
    match c {
        MatchCombinerView::BooleanExpression(e) => float_free(e) ==> r == (boolean_outcome(
            e,
            verdict_variables(verdicts),
        ) == Some(true)),
        _ => true,
    }
}

/// A combination that can be carried out without panicking.
pub open spec fn combinable(c: MatchCombinerView) -> bool {
    match c {
        MatchCombinerView::BooleanExpression(e) => evaluable(e),
        _ => true,
    }
}

impl MatchCombiner {
    /// Whether combining with this cannot panic.
    pub fn is_combinable(&self) -> (r: bool)
        ensures
            r == combinable(self@),
    {
        match self {
            MatchCombiner::BooleanExpression(e) => is_evaluable(e.as_str()),
            _ => true,
        }
    }
}

/// Combines the verdicts, `outcome` being what evaluating the expression
/// gave when the combination is an expression.
pub fn combine_with(combiner: &MatchCombiner, verdicts: &Vec<bool>, outcome: Option<bool>) -> (r:
    bool)
    ensures
        r == combine_spec(combiner@, verdicts@, outcome),
{
    match combiner {
        MatchCombiner::Any => {
            let mut i: usize = 0;
            while i < verdicts.len()
                invariant
                    i <= verdicts.len(),
                    forall|j: int| 0 <= j < i ==> !verdicts@[j],
                    *combiner == MatchCombiner::Any,
                decreases verdicts.len() - i,
            {
                if verdicts[i] {
                    assert(verdicts@[i as int]);
                    return true;
                }
                i = i + 1;
            }
            false
        },
        MatchCombiner::All => {
            let mut i: usize = 0;
            while i < verdicts.len()
                invariant
                    i <= verdicts.len(),
                    forall|j: int| 0 <= j < i ==> verdicts@[j],
                    *combiner == MatchCombiner::All,
                decreases verdicts.len() - i,
            {
                if !verdicts[i] {
                    assert(!verdicts@[i as int]);
                    return false;
                }
                i = i + 1;
            }
            true
        },
        MatchCombiner::BooleanExpression(_) => match outcome {
            Some(b) => b,
            None => false,
        },
    }
}

/// Combines the verdicts of the checks, evaluating the expression when the
/// combination is one.  For an expression, the verdict is what
/// `combine_with` makes of some evaluation outcome.
pub fn combine(combiner: &MatchCombiner, verdicts: &Vec<bool>) -> (r: bool)
    requires
        combinable(combiner@),
    ensures
        !(combiner@ is BooleanExpression) ==> r == combine_spec(combiner@, verdicts@, None),
        expression_verdict(combiner@, verdicts@, r),
        exists|o: Option<bool>| r == #[trigger] combine_spec(combiner@, verdicts@, o),
{
    let outcome = match combiner {
        MatchCombiner::BooleanExpression(e) => evaluate_expression(e.as_str(), verdicts),
        _ => None,
    };
    let r = combine_with(combiner, verdicts, outcome);
    assert(r == combine_spec(combiner@, verdicts@, outcome));
    r
}

/// Whether the validating webhook admits an object of kind `kind`:
/// `fetched[i]` is what fetching the resource check `i` names gave.
pub fn validate(
    matches: &Matches,
    combiner: &MatchCombiner,
    kind: &str,
    obj: &JsonValue,
    fetched: &Vec<Option<Fetched>>,
) -> (r: bool)
    requires
        fetched.len() == matches.0.len(),
        combinable(combiner@),
    ensures
        !(combiner@ is BooleanExpression) ==> r == combine_spec(
            combiner@,
            checking_spec(matches@, kind@, obj@, false, opt_fetched_seq(fetched@)),
            None,
        ),
        expression_verdict(
            combiner@,
            checking_spec(matches@, kind@, obj@, false, opt_fetched_seq(fetched@)),
            r,
        ),
        exists|o: Option<bool>|
            r == #[trigger] combine_spec(
                combiner@,
                checking_spec(matches@, kind@, obj@, false, opt_fetched_seq(fetched@)),
                o,
            ),
{
    let verdicts = matches.checking(kind, obj, false, fetched);
    combine(combiner, &verdicts)
}

} // verus!
