//! The mutating webhook: once every check passes, each check that names a
//! value to write, and applies to the object's kind, writes it at its
//! pointer, in the order of the checks.
use vstd::prelude::*;

use crate::json::{JsonValue, JsonView};
use crate::pointer::{assign_spec, resolve_spec, is_next_token, law_read_after_write, PointerError};
use crate::types::{
    checking_spec, opt_fetched_seq, opt_resource, kind_listed, FetchedView, Fetched, K8SResource,
    K8SResourceView, Match, MatchValue, MatchValueView, MatchView, Matches,
};

verus! {

/// Why no mutation was made.
#[derive(Debug, PartialEq, Eq, Structural, Clone, Copy)]
pub enum MutationError {
    /// Some check did not pass.
    TestFailed,
    /// The resource holding the value to write could not be fetched.
    FetchFailed,
    /// The resource holding the value to write does not exist.
    ResourceMissing,
    /// A pointer does not designate a node.
    Unresolved,
    /// The value cannot be written at the check's pointer.
    BadIndex,
}

/// The resource a check has to fetch before it can write: only a check that
/// applies to `kind` and takes the value to write from a named resource.
pub open spec fn mutation_fetch_needed(m: MatchView, kind: Seq<char>) -> Option<K8SResourceView> {
    if m.kinds.contains(kind) {
        match m.value_to_be {
            Some(MatchValueView::JsonPath { resource: Some(r), .. }) => Some(r),
            _ => None,
        }
    } else {
        None
    }
}

/// The value a check writes: a literal, or the node a pointer designates in
/// the incoming object `obj` or in the named resource.
pub open spec fn mutation_value(
    v: MatchValueView,
    obj: JsonView,
    fetched: Option<FetchedView>,
) -> Result<JsonView, MutationError> {
    match v {
        MatchValueView::Value { value } => Ok(value),
        MatchValueView::JsonPath { resource, json_path, .. } => {
            let source = match resource {
                None => Ok(obj),
                Some(_) => match fetched {
                    Some(FetchedView::Found(o)) => Ok(o),
                    Some(FetchedView::Missing) => Err(MutationError::ResourceMissing),
                    _ => Err(MutationError::FetchFailed),
                },
            };
            match source {
                Err(e) => Err(e),
                Ok(src) => match resolve_spec(src, json_path) {
                    Some(x) => Ok(x),
                    None => Err(MutationError::Unresolved),
                },
            }
        },
    }
}

/// Whether a check writes into an object of kind `kind`.
pub open spec fn writes(m: MatchView, kind: Seq<char>) -> bool {
    m.kinds.contains(kind) && m.value_to_be is Some
}

/// What one check does to `target`: a check that writes into objects of
/// this kind writes its value at its pointer; any other leaves it be.
pub open spec fn mutation_step(
    m: MatchView,
    kind: Seq<char>,
    obj: JsonView,
    target: JsonView,
    fetched: Option<FetchedView>,
) -> Result<JsonView, MutationError> {
    if writes(m, kind) {
        match mutation_value(m.value_to_be->0, obj, fetched) {
            Err(e) => Err(e),
            Ok(v) => match assign_spec(target, m.json_path, v) {
                Some(t) => Ok(t),
                None => Err(MutationError::BadIndex),
            },
        }
    } else {
        Ok(target)
    }
}

/// The checks `ms`, in order, applied to `target`; the first error stops.
pub open spec fn mutations_from(
    ms: Seq<MatchView>,
    kind: Seq<char>,
    obj: JsonView,
    fetched: Seq<Option<FetchedView>>,
    target: JsonView,
) -> Result<JsonView, MutationError>
    decreases ms.len(),
{
    if ms.len() == 0 {
        Ok(target)
    } else {
        match mutation_step(ms[0], kind, obj, target, fetched[0]) {
            Err(e) => Err(e),
            Ok(t) => mutations_from(ms.drop_first(), kind, obj, fetched.drop_first(), t),
        }
    }
}

/// Whether the check at position `i` has a value to compare with: only such
/// a check is tested before the mutation.
pub open spec fn tested(ms: Seq<MatchView>, i: int) -> bool {
    ms[i].value is Some
}

/// The mutated object: every check that has a value to compare with must
/// pass first; then the checks write, in order, into a copy of the object.
pub open spec fn mutate_spec(
    ms: Seq<MatchView>,
    kind: Seq<char>,
    obj: JsonView,
    check_fetched: Seq<Option<FetchedView>>,
    mutation_fetched: Seq<Option<FetchedView>>,
) -> Result<JsonView, MutationError> {
    let verdicts = checking_spec(ms, kind, obj, false, check_fetched);
    if forall|i: int| 0 <= i < verdicts.len() && #[trigger] tested(ms, i) ==> verdicts[i] {
        mutations_from(ms, kind, obj, mutation_fetched, obj)
    } else {
        Err(MutationError::TestFailed)
    }
}

impl Matches {
    /// For each check, the resource it has to fetch before it can write.
    pub fn mutation_resources(&self, kind: &str) -> (r: Vec<Option<K8SResource>>)
        ensures
            r.len() == self@.len(),
            forall|i: int|
                0 <= i < r.len() ==> opt_resource(#[trigger] r@[i]) == mutation_fetch_needed(
                    self@[i],
                    kind@,
                ),
    {
        let mut out: Vec<Option<K8SResource>> = Vec::new();
        let mut i: usize = 0;
        while i < self.0.len()
            invariant
                i <= self.0.len(),
                out.len() == i,
                forall|j: int|
                    0 <= j < i ==> opt_resource(#[trigger] out@[j]) == mutation_fetch_needed(
                        self@[j],
                        kind@,
                    ),
            decreases self.0.len() - i,
        {
            let m = &self.0[i];
            let item = if kind_listed(&m.kinds, kind) {
                match &m.value_to_be {
                    Some(MatchValue::JsonPath { resource: Some(r), .. }) => Some(r.duplicate()),
                    _ => None,
                }
            } else {
                None
            };
            out.push(item);
            i = i + 1;
        }
        out
    }
}

/// What one check does to `target`.
fn mutation_step_exec(
    m: &Match,
    kind: &str,
    obj: &JsonValue,
    target: JsonValue,
    fetched: &Option<Fetched>,
) -> (r: Result<JsonValue, MutationError>)
    ensures
        match mutation_step(
            m@,
            kind@,
            obj@,
            target@,
            match fetched {
                Some(f) => Some(f@),
                None => None,
            },
        ) {
            Ok(t) => r matches Ok(x) && x@ == t,
            Err(e) => r == Err::<JsonValue, MutationError>(e),
        },
{
    if !kind_listed(&m.kinds, kind) {
        return Ok(target);
    }
    let value = match &m.value_to_be {
        None => {
            return Ok(target);
        },
        Some(MatchValue::Value { value }) => value.duplicate(),
        Some(MatchValue::JsonPath { resource, json_path, .. }) => {
            let source: &JsonValue = match resource {
                None => obj,
                Some(_) => match fetched {
                    Some(Fetched::Found(o)) => o,
                    Some(Fetched::Missing) => {
                        return Err(MutationError::ResourceMissing);
                    },
                    _ => {
                        return Err(MutationError::FetchFailed);
                    },
                },
            };
            match json_path.resolve(source) {
                Some(x) => x.duplicate(),
                None => {
                    return Err(MutationError::Unresolved);
                },
            }
        },
    };
    let mut target = target;
    match m.json_path.assign(&mut target, value) {
        Ok(()) => Ok(target),
        Err(_) => Err(MutationError::BadIndex),
    }
}

/// The object the mutating webhook makes of `obj`, of kind `kind`:
/// `check_fetched[i]` is what fetching the resource check `i` compares with
/// gave, `mutation_fetched[i]` what fetching the resource it writes from gave.
pub fn mutate(
    matches: &Matches,
    kind: &str,
    obj: &JsonValue,
    check_fetched: &Vec<Option<Fetched>>,
    mutation_fetched: &Vec<Option<Fetched>>,
) -> (r: Result<JsonValue, MutationError>)
    requires
        check_fetched.len() == matches.0.len(),
        mutation_fetched.len() == matches.0.len(),
    ensures
        match mutate_spec(
            matches@,
            kind@,
            obj@,
            opt_fetched_seq(check_fetched@),
            opt_fetched_seq(mutation_fetched@),
        ) {
            Ok(t) => r matches Ok(x) && x@ == t,
            Err(e) => r == Err::<JsonValue, MutationError>(e),
        },
{
    let verdicts = matches.checking(kind, obj, false, check_fetched);
    let mut i: usize = 0;
    while i < verdicts.len()
        invariant
            i <= verdicts.len(),
            verdicts.len() == matches.0.len(),
            forall|j: int| 0 <= j < i && #[trigger] tested(matches@, j) ==> verdicts@[j],
            verdicts@ == checking_spec(
                matches@,
                kind@,
                obj@,
                false,
                opt_fetched_seq(check_fetched@),
            ),
        decreases verdicts.len() - i,
    {
        if matches.0[i].value.is_some() && !verdicts[i] {
            assert(tested(matches@, i as int) && !verdicts@[i as int]);
            return Err(MutationError::TestFailed);
        }
        i = i + 1;
    }
    let ghost ms = matches@;
    let ghost fs = opt_fetched_seq(mutation_fetched@);
    assert(mutate_spec(
        matches@,
        kind@,
        obj@,
        opt_fetched_seq(check_fetched@),
        opt_fetched_seq(mutation_fetched@),
    ) == mutations_from(ms, kind@, obj@, fs, obj@));
    let mut target = obj.duplicate();
    let mut k: usize = 0;
    assert(ms.skip(0) =~= ms);
    assert(fs.skip(0) =~= fs);
    while k < matches.0.len()
        invariant
            k <= matches.0.len(),
            ms == matches@,
            fs == opt_fetched_seq(mutation_fetched@),
            mutation_fetched.len() == matches.0.len(),
            mutate_spec(
                matches@,
                kind@,
                obj@,
                opt_fetched_seq(check_fetched@),
                opt_fetched_seq(mutation_fetched@),
            ) == mutations_from(ms, kind@, obj@, fs, obj@),
            mutations_from(ms, kind@, obj@, fs, obj@) == mutations_from(
                ms.skip(k as int),
                kind@,
                obj@,
                fs.skip(k as int),
                target@,
            ),
        decreases matches.0.len() - k,
    {
        assert(ms.skip(k as int).drop_first() =~= ms.skip(k + 1));
        assert(fs.skip(k as int).drop_first() =~= fs.skip(k + 1));
        assert(ms.skip(k as int)[0] == matches.0@[k as int]@);
        assert(fs.skip(k as int)[0] == match &mutation_fetched@[k as int] {
            Some(f) => Some(f@),
            None => None::<FetchedView>,
        });
        match mutation_step_exec(&matches.0[k], kind, obj, target, &mutation_fetched[k]) {
            Ok(t) => {
                target = t;
            },
            Err(e) => {
                return Err(e);
            },
        }
        k = k + 1;
    }
    assert(ms.skip(k as int) =~= Seq::<MatchView>::empty());
    Ok(target)
}

/// A mutation happens only when every check that has a value to compare
/// with passes.
pub proof fn law_mutation_needs_all_checks(
    ms: Seq<MatchView>,
    kind: Seq<char>,
    obj: JsonView,
    check_fetched: Seq<Option<FetchedView>>,
    mutation_fetched: Seq<Option<FetchedView>>,
    i: int,
)
    requires
        0 <= i < ms.len(),
        ms[i].value is Some,
        !checking_spec(ms, kind, obj, false, check_fetched)[i],
    ensures
        mutate_spec(ms, kind, obj, check_fetched, mutation_fetched) == Err::<
            JsonView,
            MutationError,
        >(MutationError::TestFailed),
{
    assert(tested(ms, i));
}

/// A check without a value to compare with is not tested: when no check has
/// one, the checks write whatever the object holds.
pub proof fn law_untested_checks_do_not_block(
    ms: Seq<MatchView>,
    kind: Seq<char>,
    obj: JsonView,
    check_fetched: Seq<Option<FetchedView>>,
    mutation_fetched: Seq<Option<FetchedView>>,
)
    requires
        forall|i: int| 0 <= i < ms.len() ==> (#[trigger] ms[i]).value is None,
    ensures
        mutate_spec(ms, kind, obj, check_fetched, mutation_fetched) == mutations_from(
            ms,
            kind,
            obj,
            mutation_fetched,
            obj,
        ),
{
    let verdicts = checking_spec(ms, kind, obj, false, check_fetched);
    assert forall|i: int| 0 <= i < verdicts.len() && #[trigger] tested(ms, i) implies verdicts[i] by {
        assert(ms[i].value is None);
    }
}

/// A check whose kinds do not include the object's kind never writes: one
/// step of it leaves any target as it is.
pub proof fn law_unlisted_check_leaves_target(
    m: MatchView,
    kind: Seq<char>,
    obj: JsonView,
    target: JsonView,
    fetched: Option<FetchedView>,
)
    requires
        !m.kinds.contains(kind),
    ensures
        mutation_step(m, kind, obj, target, fetched) == Ok::<JsonView, MutationError>(target),
{
}

/// When no check lists the object's kind, the mutation never changes the
/// object: it is either given back as it is or refused, and given back
/// when no check has a value to compare with.
pub proof fn law_unlisted_kind_keeps_object(
    ms: Seq<MatchView>,
    kind: Seq<char>,
    obj: JsonView,
    check_fetched: Seq<Option<FetchedView>>,
    mutation_fetched: Seq<Option<FetchedView>>,
)
    requires
        forall|i: int| 0 <= i < ms.len() ==> !(#[trigger] ms[i]).kinds.contains(kind),
        mutation_fetched.len() == ms.len(),
    ensures
        mutate_spec(ms, kind, obj, check_fetched, mutation_fetched) matches Ok(t) ==> t == obj,
        (forall|i: int| 0 <= i < ms.len() ==> (#[trigger] ms[i]).value is None) ==> mutate_spec(
            ms,
            kind,
            obj,
            check_fetched,
            mutation_fetched,
        ) == Ok::<JsonView, MutationError>(obj),
{
    assert forall|i: int| 0 <= i < ms.len() implies !writes(#[trigger] ms[i], kind) by {
        assert(!ms[i].kinds.contains(kind));
    }
    law_no_writes_keep_object(ms, kind, obj, mutation_fetched, obj);
    if forall|i: int| 0 <= i < ms.len() ==> (#[trigger] ms[i]).value is None {
        law_untested_checks_do_not_block(ms, kind, obj, check_fetched, mutation_fetched);
    }
}

/// Checks that write nothing into objects of this kind leave the object as
/// it is.
pub proof fn law_no_writes_keep_object(
    ms: Seq<MatchView>,
    kind: Seq<char>,
    obj: JsonView,
    fetched: Seq<Option<FetchedView>>,
    target: JsonView,
)
    requires
        forall|i: int| 0 <= i < ms.len() ==> !writes(#[trigger] ms[i], kind),
        fetched.len() == ms.len(),
    ensures
        mutations_from(ms, kind, obj, fetched, target) == Ok::<JsonView, MutationError>(target),
    decreases ms.len(),
{
    if ms.len() > 0 {
        assert(!writes(ms[0], kind));
        let rest = ms.drop_first();
        assert forall|i: int| 0 <= i < rest.len() implies !writes(#[trigger] rest[i], kind) by {
            assert(rest[i] == ms[i + 1]);
        }
        law_no_writes_keep_object(rest, kind, obj, fetched.drop_first(), target);
    }
}

/// The last check's write is what the mutated object holds at its pointer,
/// when that pointer has no `-` token.
pub proof fn law_last_write_readable(
    ms: Seq<MatchView>,
    kind: Seq<char>,
    obj: JsonView,
    fetched: Seq<Option<FetchedView>>,
    target: JsonView,
)
    requires
        ms.len() > 0,
        fetched.len() == ms.len(),
        writes(ms.last(), kind),
        forall|i: int|
            0 <= i < ms.last().json_path.len() ==> !is_next_token(
                #[trigger] ms.last().json_path[i],
            ),
        mutations_from(ms, kind, obj, fetched, target) is Ok,
    ensures
        mutation_value(ms.last().value_to_be->0, obj, fetched.last()) is Ok,
        resolve_spec(mutations_from(ms, kind, obj, fetched, target)->Ok_0, ms.last().json_path)
            == Some(mutation_value(ms.last().value_to_be->0, obj, fetched.last())->Ok_0),
    decreases ms.len(),
{
    let t = mutation_step(ms[0], kind, obj, target, fetched[0]);
    if ms.len() == 1 {
        assert(ms.drop_first().len() == 0);
        assert(ms.last() == ms[0]);
        let v = mutation_value(ms[0].value_to_be->0, obj, fetched[0]);
        law_read_after_write(target, ms[0].json_path, v->Ok_0);
    } else {
        let rest = ms.drop_first();
        assert(rest.last() == ms.last());
        assert(fetched.drop_first().last() == fetched.last());
        law_last_write_readable(rest, kind, obj, fetched.drop_first(), t->Ok_0);
    }
}

} // verus!
