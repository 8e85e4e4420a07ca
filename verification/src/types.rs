//! What one check (`Match`) says and how it judges an incoming object.
//!
//! A check names a JSON pointer into the incoming object, the object kinds it
//! applies to, optionally the value to compare the pointed node with (a
//! literal, or a node that another pointer designates, in this object or in a
//! Kubernetes resource that has to be fetched), how to compare, and
//! optionally the value a mutation writes there.
use vstd::prelude::*;

use crate::json::{JsonValue, JsonView, JsonNumber, models, included, overlap, any_shared, all_contained, contains_value, json_eq};
use crate::pointer::{JsonPointer, resolve_spec};
use crate::text::{find_char, find_char_index, piece, ascii_upper, to_ascii_uppercase, same_text};

verus! {

// ---------------------------------------------------------------------------
// Kubernetes resources named on the command line
// ---------------------------------------------------------------------------

/// A Kubernetes resource named as `Kind:Namespace/Name` or `Kind:Name`.
#[derive(Debug)]
pub struct K8SResource {
    pub kind: String,
    pub namespace: Option<String>,
    pub name: String,
}

pub struct K8SResourceView {
    pub kind: Seq<char>,
    pub namespace: Option<Seq<char>>,
    pub name: Seq<char>,
}

pub open spec fn opt_text(s: Option<String>) -> Option<Seq<char>> {
    match s {
        Some(t) => Some(t@),
        None => None,
    }
}

impl View for K8SResource {
    type V = K8SResourceView;

    open spec fn view(&self) -> K8SResourceView {
        K8SResourceView { kind: self.kind@, namespace: opt_text(self.namespace), name: self.name@ }
    }
}

/// The resource a text names: the kind before the first `:`, then, when the
/// rest holds a `/`, the namespace before the first `/` and the name after
/// it, otherwise the whole rest as the name.  `None` without a `:`.
pub open spec fn parse_resource(s: Seq<char>) -> Option<K8SResourceView> {
    match find_char(s, ':') {
        None => None,
        Some(i) => {
            let rest = s.skip(i + 1);
            match find_char(rest, '/') {
                Some(j) => Some(
                    K8SResourceView {
                        kind: s.take(i),
                        namespace: Some(rest.take(j)),
                        name: rest.skip(j + 1),
                    },
                ),
                None => Some(K8SResourceView { kind: s.take(i), namespace: None, name: rest }),
            }
        },
    }
}

/// Why the command line could not be turned into checks.
#[derive(Debug, PartialEq, Eq, Structural, Clone, Copy)]
pub enum ConfigError {
    /// A resource text without `:`.
    ResourceWithoutKind,
    /// A combining expression that does not parse.
    BadExpression,
    /// A check without the pointer that starts it.
    MissingJsonPath,
    /// A check with both a value and a pointer to compare with.
    ValueAndPointer,
    /// A check with both a value and a pointer to mutate with.
    MutationValueAndPointer,
}

impl K8SResource {
    /// Reads `Kind:Namespace/Name` or `Kind:Name`.
    pub fn from_str(s: &str) -> (r: Result<K8SResource, ConfigError>)
        ensures
            match parse_resource(s@) {
                Some(v) => r matches Ok(k) && k@ == v,
                None => r == Err::<K8SResource, ConfigError>(ConfigError::ResourceWithoutKind),
            },
    {
        proof {
            crate::text::lemma_find_char(s@, ':');
        }
        match find_char_index(s, ':') {
            None => Err(ConfigError::ResourceWithoutKind),
            Some(i) => {
                let n = s.unicode_len();
                let kind = piece(s, 0, i);
                let rest = piece(s, i + 1, n);
                assert(rest@ =~= s@.skip(i + 1));
                assert(kind@ =~= s@.take(i as int));
                proof {
                    crate::text::lemma_find_char(rest@, '/');
                }
                let m = rest.as_str().unicode_len();
                match find_char_index(rest.as_str(), '/') {
                    Some(j) => {
                        let ns = piece(rest.as_str(), 0, j);
                        let name = piece(rest.as_str(), j + 1, m);
                        assert(ns@ =~= rest@.take(j as int));
                        assert(name@ =~= rest@.skip(j + 1));
                        Ok(K8SResource { kind, namespace: Some(ns), name })
                    },
                    None => Ok(K8SResource { kind, namespace: None, name: rest }),
                }
            },
        }
    }

    /// A copy of the resource name.
    pub fn duplicate(&self) -> (r: K8SResource)
        ensures
            r@ == self@,
    {
        let namespace = match &self.namespace {
            Some(n) => Some(n.clone()),
            None => None,
        };
        K8SResource { kind: self.kind.clone(), namespace, name: self.name.clone() }
    }
}

// ---------------------------------------------------------------------------
// How two values are compared
// ---------------------------------------------------------------------------

/// How the pointed node and the value it is checked against are compared.
#[derive(Debug, PartialEq, Eq, Structural, Clone, Copy)]
pub enum Contains {
    /// The two are equal.
    Equal,
    /// Both are arrays that share an element.
    Intersect,
    /// One array holds the other value, or all elements of the other array.
    Contain,
}

/// The comparison a text names, case aside: empty or `EQUAL`, `CONTAIN`,
/// `INTERSECT`.
pub open spec fn contains_from_text(s: Seq<char>) -> Option<Contains> {
    let u = ascii_upper(s);
    if u.len() == 0 || u == "EQUAL"@ {
        Some(Contains::Equal)
    } else if u == "CONTAIN"@ {
        Some(Contains::Contain)
    } else if u == "INTERSECT"@ {
        Some(Contains::Intersect)
    } else {
        None
    }
}

impl Contains {
    /// The comparison a text names, if it names one.
    pub fn keyword(s: &str) -> (r: Option<Contains>)
        ensures
            r == contains_from_text(s@),
    {
        let u = to_ascii_uppercase(s);
        if u.as_str().unicode_len() == 0 || same_text(u.as_str(), "EQUAL") {
            Some(Contains::Equal)
        } else if same_text(u.as_str(), "CONTAIN") {
            Some(Contains::Contain)
        } else if same_text(u.as_str(), "INTERSECT") {
            Some(Contains::Intersect)
        } else {
            None
        }
    }

    /// Reads a comparison; any other text is not accepted.
    pub fn from_str(s: &str) -> (r: Contains)
        requires
            contains_from_text(s@) is Some,
        ensures
            r == contains_from_text(s@)->0,
    {
        match Contains::keyword(s) {
            Some(c) => c,
            None => Contains::Equal,
        }
    }
}

/// Why a check could not be decided.
#[derive(Debug, PartialEq, Eq, Structural, Clone, Copy)]
pub enum MatchError {
    /// A pointer does not designate a node.
    Unresolved,
    /// Containment was asked of values that are not both arrays.
    NotBothLists,
    /// The resource to compare with could not be fetched.
    FetchFailed,
    /// The resource to compare with does not exist.
    ResourceMissing,
}

/// Equality as the checks use it: two arrays are equal when they hold the
/// same elements, taken as sets; any other values when they are the same.
pub open spec fn same_value(target: JsonView, results: JsonView) -> bool {
    if results.is_array() && target.is_array() {
        included(results.elements(), target.elements()) && included(
            target.elements(),
            results.elements(),
        )
    } else {
        target == results
    }
}

/// The verdict on the pointed node `results` against the value `target`.
/// With `ignore_containing` only equality counts.  Arrays are treated as
/// sets: `Equal` asks for the same elements, `Intersect` for a shared
/// element, `Contain` for one holding every element of the other; `Contain`
/// between an array and another value asks the array to hold that value.
pub open spec fn compare_spec(
    contains: Contains,
    ignore_containing: bool,
    target: JsonView,
    results: JsonView,
) -> Result<bool, MatchError> {
    if ignore_containing {
        Ok(same_value(target, results))
    } else {
        match contains {
            Contains::Equal => Ok(same_value(target, results)),
            Contains::Intersect => if results.is_array() && target.is_array() {
                Ok(overlap(results.elements(), target.elements()))
            } else {
                Err(MatchError::NotBothLists)
            },
            Contains::Contain => if results.is_array() && target.is_array() {
                Ok(
                    included(results.elements(), target.elements()) || included(
                        target.elements(),
                        results.elements(),
                    ),
                )
            } else if results.is_array() {
                Ok(results.elements().contains(target))
            } else if target.is_array() {
                Ok(target.elements().contains(results))
            } else {
                Err(MatchError::NotBothLists)
            },
        }
    }
}

fn same_value_exec(target: &JsonValue, results: &JsonValue) -> (r: bool)
    ensures
        r == same_value(target@, results@),
{
    proof {
        crate::json::lemma_array_model(results);
        crate::json::lemma_array_model(target);
    }
    match (results, target) {
        (JsonValue::Array(src), JsonValue::Array(dst)) => all_contained(src, dst) && all_contained(
            dst,
            src,
        ),
        _ => json_eq(target, results),
    }
}

/// Compares the pointed node `results` with the value `target`.
pub fn compare(contains: Contains, ignore_containing: bool, target: &JsonValue, results: &JsonValue) -> (r:
    Result<bool, MatchError>)
    ensures
        r == compare_spec(contains, ignore_containing, target@, results@),
{
    if ignore_containing {
        return Ok(same_value_exec(target, results));
    }
    match contains {
        Contains::Equal => Ok(same_value_exec(target, results)),
        Contains::Intersect => {
            match (results, target) {
                (JsonValue::Array(src), JsonValue::Array(dst)) => {
                    proof {
                        crate::json::lemma_array_model(results);
                        crate::json::lemma_array_model(target);
                    }
                    Ok(any_shared(src, dst))
                },
                _ => Err(MatchError::NotBothLists),
            }
        },
        Contains::Contain => {
            proof {
                crate::json::lemma_array_model(results);
                crate::json::lemma_array_model(target);
            }
            match (results, target) {
                (JsonValue::Array(src), JsonValue::Array(dst)) => {
                    Ok(all_contained(src, dst) || all_contained(dst, src))
                },
                (JsonValue::Array(src), _) => Ok(contains_value(src, target)),
                (_, JsonValue::Array(dst)) => Ok(contains_value(dst, results)),
                _ => Err(MatchError::NotBothLists),
            }
        },
    }
}

/// Comparing is symmetric: swapping the pointed node and the value it is
/// checked against gives the same verdict.
pub proof fn law_compare_symmetric(
    contains: Contains,
    ignore_containing: bool,
    a: JsonView,
    b: JsonView,
)
    ensures
        compare_spec(contains, ignore_containing, a, b) == compare_spec(
            contains,
            ignore_containing,
            b,
            a,
        ),
{
    if !ignore_containing && contains == Contains::Intersect && a.is_array() && b.is_array() {
        let (x, y) = (a.elements(), b.elements());
        if overlap(x, y) {
            let i = choose|i: int| 0 <= i < x.len() && #[trigger] y.contains(x[i]);
            let j = choose|j: int| 0 <= j < y.len() && y[j] == x[i];
            assert(x.contains(y[j]));
        }
        if overlap(y, x) {
            let i = choose|i: int| 0 <= i < y.len() && #[trigger] x.contains(y[i]);
            let j = choose|j: int| 0 <= j < x.len() && x[j] == y[i];
            assert(y.contains(x[j]));
        }
    }
}

// ---------------------------------------------------------------------------
// Checks
// ---------------------------------------------------------------------------

/// What the pointed node is compared with, or what a mutation writes.
#[derive(Debug)]
pub enum MatchValue {
    /// A literal value.
    Value { value: JsonValue },
    /// The node a pointer designates, in the incoming object or, when a
    /// resource is named, in that resource.
    JsonPath {
        resource: Option<K8SResource>,
        ignore_resource_not_exist: bool,
        json_path: JsonPointer,
    },
}

pub enum MatchValueView {
    Value { value: JsonView },
    JsonPath {
        resource: Option<K8SResourceView>,
        ignore_resource_not_exist: bool,
        json_path: Seq<Seq<char>>,
    },
}

pub open spec fn opt_resource(r: Option<K8SResource>) -> Option<K8SResourceView> {
    match r {
        Some(k) => Some(k@),
        None => None,
    }
}

impl View for MatchValue {
    type V = MatchValueView;

    open spec fn view(&self) -> MatchValueView {
        match self {
            MatchValue::Value { value } => MatchValueView::Value { value: value@ },
            MatchValue::JsonPath { resource, ignore_resource_not_exist, json_path } =>
                MatchValueView::JsonPath {
                resource: opt_resource(*resource),
                ignore_resource_not_exist: *ignore_resource_not_exist,
                json_path: json_path@,
            },
        }
    }
}

pub open spec fn opt_match_value(v: Option<MatchValue>) -> Option<MatchValueView> {
    match v {
        Some(m) => Some(m@),
        None => None,
    }
}

/// One check, and the mutation that goes with it.
#[derive(Debug)]
pub struct Match {
    pub json_path: JsonPointer,
    pub kinds: Vec<String>,
    pub value: Option<MatchValue>,
    pub contains: Contains,
    pub value_to_be: Option<MatchValue>,
}

pub struct MatchView {
    pub json_path: Seq<Seq<char>>,
    pub kinds: Seq<Seq<char>>,
    pub value: Option<MatchValueView>,
    pub contains: Contains,
    pub value_to_be: Option<MatchValueView>,
}

impl View for Match {
    type V = MatchView;

    open spec fn view(&self) -> MatchView {
        MatchView {
            json_path: self.json_path@,
            kinds: self.kinds@.map_values(|k: String| k@),
            value: opt_match_value(self.value),
            contains: self.contains,
            value_to_be: opt_match_value(self.value_to_be),
        }
    }
}

/// What fetching a resource gave.
#[derive(Debug)]
pub enum Fetched {
    /// The request failed.
    Failed,
    /// The resource does not exist.
    Missing,
    /// The resource, as a document.
    Found(JsonValue),
}

pub enum FetchedView {
    Failed,
    Missing,
    Found(JsonView),
}

impl View for Fetched {
    type V = FetchedView;

    open spec fn view(&self) -> FetchedView {
        match self {
            Fetched::Failed => FetchedView::Failed,
            Fetched::Missing => FetchedView::Missing,
            Fetched::Found(v) => FetchedView::Found(v@),
        }
    }
}

pub open spec fn opt_fetched(f: Option<&Fetched>) -> Option<FetchedView> {
    match f {
        Some(x) => Some(x@),
        None => None,
    }
}

/// The resource a check has to fetch before it can judge `obj`: only a check
/// that applies to `kind`, whose own pointer designates a node of `obj`, and
/// that compares with a node of a named resource.
pub open spec fn fetch_needed(m: MatchView, kind: Seq<char>, obj: JsonView) -> Option<
    K8SResourceView,
> {
    if !m.kinds.contains(kind) {
        None
    } else if resolve_spec(obj, m.json_path) is None {
        None
    } else {
        match m.value {
            Some(MatchValueView::JsonPath { resource: Some(r), .. }) => Some(r),
            _ => None,
        }
    }
}

/// The verdict of a check on an object of kind `kind`, given what fetching
/// the resource it names gave (`fetched`).  A check that does not apply to
/// the kind does not match.  Otherwise its pointer must designate a node of
/// the object; without a value to compare with, the check asks that node not
/// to be `null`; a literal value is compared with it; a pointer designates the
/// value to compare with, in the object itself or in the named resource; a
/// missing resource makes the check pass when it is told to ignore that.
pub open spec fn matching_spec(
    m: MatchView,
    kind: Seq<char>,
    obj: JsonView,
    ignore_containing: bool,
    fetched: Option<FetchedView>,
) -> Result<bool, MatchError> {
    if !m.kinds.contains(kind) {
        Ok(false)
    } else {
        match resolve_spec(obj, m.json_path) {
            None => Err(MatchError::Unresolved),
            Some(results) => match m.value {
                None => Ok(!(results is Null)),
                Some(MatchValueView::Value { value }) => compare_spec(
                    m.contains,
                    ignore_containing,
                    value,
                    results,
                ),
                Some(
                    MatchValueView::JsonPath { resource, ignore_resource_not_exist, json_path },
                ) => {
                    let source = match resource {
                        None => Ok(obj),
                        Some(_) => match fetched {
                            Some(FetchedView::Found(ext)) => Ok(ext),
                            Some(FetchedView::Missing) => Err(MatchError::ResourceMissing),
                            _ => Err(MatchError::FetchFailed),
                        },
                    };
                    match source {
                        Err(MatchError::ResourceMissing) => if ignore_resource_not_exist {
                            Ok(true)
                        } else {
                            Err(MatchError::ResourceMissing)
                        },
                        Err(e) => Err(e),
                        Ok(src) => match resolve_spec(src, json_path) {
                            None => Err(MatchError::Unresolved),
                            Some(o) => compare_spec(m.contains, ignore_containing, o, results),
                        },
                    }
                },
            },
        }
    }
}

/// Whether `kind` is one of `kinds`.
pub fn kind_listed(kinds: &Vec<String>, kind: &str) -> (r: bool)
    ensures
        r == kinds@.map_values(|k: String| k@).contains(kind@),
{
    let k = String::from_str(kind);
    let ghost ks = kinds@.map_values(|k: String| k@);
    let mut i: usize = 0;
    while i < kinds.len()
        invariant
            i <= kinds.len(),
            ks == kinds@.map_values(|k: String| k@),
            k@ == kind@,
            forall|j: int| 0 <= j < i ==> ks[j] != kind@,
        decreases kinds.len() - i,
    {
        if kinds[i] == k {
            assert(ks[i as int] == kind@);
            return true;
        }
        i = i + 1;
    }
    false
}

impl Match {
    /// The resource this check has to fetch before judging `obj`, if any.
    pub fn resource_to_fetch(&self, kind: &str, obj: &JsonValue) -> (r: Option<&K8SResource>)
        ensures
            match r {
                Some(k) => fetch_needed(self@, kind@, obj@) == Some(k@),
                None => fetch_needed(self@, kind@, obj@) is None,
            },
    {
        if !kind_listed(&self.kinds, kind) {
            return None;
        }
        if self.json_path.resolve(obj).is_none() {
            return None;
        }
        match &self.value {
            Some(MatchValue::JsonPath { resource: Some(r), .. }) => Some(r),
            _ => None,
        }
    }

    /// Judges an object of kind `kind`; `fetched` is what fetching the
    /// resource named by `resource_to_fetch` gave, when there is one.
    pub fn matching(
        &self,
        kind: &str,
        obj: &JsonValue,
        ignore_containing: bool,
        fetched: Option<&Fetched>,
    ) -> (r: Result<bool, MatchError>)
        ensures
            r == matching_spec(self@, kind@, obj@, ignore_containing, opt_fetched(fetched)),
    {
        if !kind_listed(&self.kinds, kind) {
            return Ok(false);
        }
        let results = match self.json_path.resolve(obj) {
            Some(x) => x,
            None => {
                return Err(MatchError::Unresolved);
            },
        };
        match &self.value {
            None => Ok(!results.is_null()),
            Some(MatchValue::Value { value }) => compare(
                self.contains,
                ignore_containing,
                value,
                results,
            ),
            Some(MatchValue::JsonPath { resource, ignore_resource_not_exist, json_path }) => {
                let source: &JsonValue = match resource {
                    None => obj,
                    Some(_) => match fetched {
                        Some(Fetched::Found(ext)) => ext,
                        Some(Fetched::Missing) => {
                            if *ignore_resource_not_exist {
                                return Ok(true);
                            } else {
                                return Err(MatchError::ResourceMissing);
                            }
                        },
                        _ => {
                            return Err(MatchError::FetchFailed);
                        },
                    },
                };
                match json_path.resolve(source) {
                    None => Err(MatchError::Unresolved),
                    Some(o) => compare(self.contains, ignore_containing, o, results),
                }
            },
        }
    }
}

/// All the checks of the webhook, in the order the command line gives them.
#[derive(Debug)]
pub struct Matches(pub Vec<Match>);

impl View for Matches {
    type V = Seq<MatchView>;

    open spec fn view(&self) -> Seq<MatchView> {
        self.0@.map_values(|m: Match| m@)
    }
}

/// The verdicts of all checks, a check that cannot be decided counting as
/// failed.
pub open spec fn checking_spec(
    ms: Seq<MatchView>,
    kind: Seq<char>,
    obj: JsonView,
    ignore_containing: bool,
    fetched: Seq<Option<FetchedView>>,
) -> Seq<bool> {
    Seq::new(
        ms.len(),
        |i: int| matching_spec(ms[i], kind, obj, ignore_containing, fetched[i]) == Ok::<bool, MatchError>(true),
    )
}

pub open spec fn opt_fetched_seq(f: Seq<Option<Fetched>>) -> Seq<Option<FetchedView>> {
    f.map_values(
        |x: Option<Fetched>|
            match x {
                Some(y) => Some(y@),
                None => None,
            },
    )
}

impl Matches {
    /// For each check, the resource it has to fetch before judging `obj`.
    pub fn resources_to_fetch(&self, kind: &str, obj: &JsonValue) -> (r: Vec<Option<K8SResource>>)
        ensures
            r.len() == self@.len(),
            forall|i: int|
                0 <= i < r.len() ==> opt_resource(#[trigger] r@[i]) == fetch_needed(
                    self@[i],
                    kind@,
                    obj@,
                ),
    {
        let mut out: Vec<Option<K8SResource>> = Vec::new();
        let mut i: usize = 0;
        while i < self.0.len()
            invariant
                i <= self.0.len(),
                out.len() == i,
                forall|j: int|
                    0 <= j < i ==> opt_resource(#[trigger] out@[j]) == fetch_needed(
                        self@[j],
                        kind@,
                        obj@,
                    ),
            decreases self.0.len() - i,
        {
            let item = match self.0[i].resource_to_fetch(kind, obj) {
                Some(k) => Some(k.duplicate()),
                None => None,
            };
            out.push(item);
            i = i + 1;
        }
        out
    }

    /// The verdicts of all checks on `obj`; `fetched[i]` is what fetching the
    /// resource that check `i` names gave, when it names one.
    pub fn checking(
        &self,
        kind: &str,
        obj: &JsonValue,
        ignore_containing: bool,
        fetched: &Vec<Option<Fetched>>,
    ) -> (r: Vec<bool>)
        requires
            fetched.len() == self.0.len(),
        ensures
            r@ == checking_spec(self@, kind@, obj@, ignore_containing, opt_fetched_seq(fetched@)),
    {
        let mut out: Vec<bool> = Vec::new();
        let mut i: usize = 0;
        while i < self.0.len()
            invariant
                i <= self.0.len(),
                fetched.len() == self.0.len(),
                out.len() == i,
                forall|j: int|
                    0 <= j < i ==> #[trigger] out@[j] == (matching_spec(
                        self@[j],
                        kind@,
                        obj@,
                        ignore_containing,
                        opt_fetched_seq(fetched@)[j],
                    ) == Ok::<bool, MatchError>(true)),
            decreases self.0.len() - i,
        {
            let f = match &fetched[i] {
                Some(x) => Some(x),
                None => None,
            };
            let verdict = match self.0[i].matching(kind, obj, ignore_containing, f) {
                Ok(b) => b,
                Err(_) => false,
            };
            out.push(verdict);
            i = i + 1;
        }
        assert(out@ =~= checking_spec(
            self@,
            kind@,
            obj@,
            ignore_containing,
            opt_fetched_seq(fetched@),
        ));
        out
    }
}

/// A check that does not apply to the object's kind does not pass, whatever
/// the object holds.
pub proof fn law_other_kinds_do_not_match(
    m: MatchView,
    kind: Seq<char>,
    obj: JsonView,
    ignore_containing: bool,
    fetched: Option<FetchedView>,
)
    requires
        !m.kinds.contains(kind),
    ensures
        matching_spec(m, kind, obj, ignore_containing, fetched) == Ok::<bool, MatchError>(false),
        fetch_needed(m, kind, obj) is None,
{
}

/// Containment between a list and a single value asks the list to hold the
/// value: the verdict is a pass exactly when some element of the list equals
/// the other side, and never an error.
pub proof fn law_contain_list_and_value(target: JsonView, results: JsonView)
    ensures
        results.is_array() && !target.is_array() ==> compare_spec(
            Contains::Contain,
            false,
            target,
            results,
        ) == Ok::<bool, MatchError>(
            exists|i: int|
                0 <= i < results.elements().len() && #[trigger] results.elements()[i] == target,
        ),
        target.is_array() && !results.is_array() ==> compare_spec(
            Contains::Contain,
            false,
            target,
            results,
        ) == Ok::<bool, MatchError>(
            exists|i: int|
                0 <= i < target.elements().len() && #[trigger] target.elements()[i] == results,
        ),
        !target.is_array() && !results.is_array() ==> compare_spec(
            Contains::Contain,
            false,
            target,
            results,
        ) == Err::<bool, MatchError>(MatchError::NotBothLists),
{
}

/// Every element of `a` equals some element of `b`.
pub open spec fn each_found_in(a: Seq<JsonView>, b: Seq<JsonView>) -> bool {
    forall|i: int| 0 <= i < a.len() ==> #[trigger] found_in(a[i], b)
}

/// `x` equals some element of `b`.
pub open spec fn found_in(x: JsonView, b: Seq<JsonView>) -> bool {
    exists|j: int| 0 <= j < b.len() && x == #[trigger] b[j]
}

proof fn lemma_included_each(a: Seq<JsonView>, b: Seq<JsonView>)
    ensures
        included(a, b) == each_found_in(a, b),
{
    if included(a, b) {
        assert forall|i: int| 0 <= i < a.len() implies #[trigger] found_in(a[i], b) by {
            assert(b.contains(a[i]));
            let j = choose|j: int| 0 <= j < b.len() && b[j] == a[i];
            assert(a[i] == b[j]);
        }
        assert(each_found_in(a, b));
    }
    if each_found_in(a, b) {
        assert forall|i: int| 0 <= i < a.len() implies #[trigger] b.contains(a[i]) by {
            assert(found_in(a[i], b));
            let j = choose|j: int| 0 <= j < b.len() && a[i] == #[trigger] b[j];
            assert(b[j] == a[i]);
        }
        assert(included(a, b));
    }
}

/// Between two lists, taken as sets: `Intersect` passes when some element
/// of one equals some element of the other, `Contain` when every element of
/// one is found in the other, `Equal` (and any comparison when containment
/// is ignored) when each is found in the other.
pub proof fn law_two_lists(contains: Contains, ignore_containing: bool, target: JsonView, results: JsonView)
    requires
        target.is_array(),
        results.is_array(),
    ensures
        !ignore_containing && contains == Contains::Intersect ==> compare_spec(
            contains,
            ignore_containing,
            target,
            results,
        ) == Ok::<bool, MatchError>(
            exists|i: int, j: int|
                0 <= i < results.elements().len() && 0 <= j < target.elements().len()
                    && #[trigger] results.elements()[i] == #[trigger] target.elements()[j],
        ),
        !ignore_containing && contains == Contains::Contain ==> compare_spec(
            contains,
            ignore_containing,
            target,
            results,
        ) == Ok::<bool, MatchError>(
            each_found_in(results.elements(), target.elements()) || each_found_in(
                target.elements(),
                results.elements(),
            ),
        ),
        ignore_containing || contains == Contains::Equal ==> compare_spec(
            contains,
            ignore_containing,
            target,
            results,
        ) == Ok::<bool, MatchError>(
            each_found_in(results.elements(), target.elements()) && each_found_in(
                target.elements(),
                results.elements(),
            ),
        ),
{
    let r = results.elements();
    let t = target.elements();
    lemma_included_each(r, t);
    lemma_included_each(t, r);
    if overlap(r, t) {
        let i = choose|i: int| 0 <= i < r.len() && #[trigger] t.contains(r[i]);
        let j = choose|j: int| 0 <= j < t.len() && t[j] == r[i];
        assert(r[i] == t[j]);
    }
    if exists|i: int, j: int| 0 <= i < r.len() && 0 <= j < t.len() && #[trigger] r[i] == #[trigger] t[j] {
        let (i, j) = choose|i: int, j: int| 0 <= i < r.len() && 0 <= j < t.len() && #[trigger] r[i] == #[trigger] t[j];
        assert(t.contains(r[i]));
    }
}

/// A check passes only when it is judged a pass: a check that cannot be
/// judged (a resource that is missing and not to be ignored, a fetch that
/// failed, a pointer that designates nothing, a containment between two
/// non-lists) fails.
pub proof fn law_undecided_checks_fail(
    ms: Seq<MatchView>,
    kind: Seq<char>,
    obj: JsonView,
    ignore_containing: bool,
    fetched: Seq<Option<FetchedView>>,
    i: int,
)
    requires
        0 <= i < ms.len(),
    ensures
        checking_spec(ms, kind, obj, ignore_containing, fetched).len() == ms.len(),
        checking_spec(ms, kind, obj, ignore_containing, fetched)[i] ==> matching_spec(
            ms[i],
            kind,
            obj,
            ignore_containing,
            fetched[i],
        ) == Ok::<bool, MatchError>(true),
        matching_spec(ms[i], kind, obj, ignore_containing, fetched[i]) is Err ==> !checking_spec(
            ms,
            kind,
            obj,
            ignore_containing,
            fetched,
        )[i],
{
}

/// A check that compares with a named resource, not told to ignore a
/// missing one, fails when the resource does not exist, whatever the
/// object holds.
pub proof fn law_missing_resource_fails(
    ms: Seq<MatchView>,
    kind: Seq<char>,
    obj: JsonView,
    ignore_containing: bool,
    fetched: Seq<Option<FetchedView>>,
    i: int,
)
    requires
        0 <= i < ms.len(),
        ms[i].value matches Some(MatchValueView::JsonPath { resource, ignore_resource_not_exist, .. })
            && resource is Some && !ignore_resource_not_exist,
        fetched[i] == Some(FetchedView::Missing),
    ensures
        matching_spec(ms[i], kind, obj, ignore_containing, fetched[i]) != Ok::<bool, MatchError>(
            true,
        ),
        !checking_spec(ms, kind, obj, ignore_containing, fetched)[i],
{
}

// ---------------------------------------------------------------------------
// How the verdicts of the checks are combined
// ---------------------------------------------------------------------------

/// How the verdicts of all checks make the verdict on the object.
#[derive(Debug)]
pub enum MatchCombiner {
    /// Some check passes.
    Any,
    /// Every check passes.
    All,
    /// A boolean expression over `v1`, `v2`, ..., the verdicts of the checks
    /// in order, held as its source text, as given.
    BooleanExpression(String),
}

pub enum MatchCombinerView {
    Any,
    All,
    BooleanExpression(Seq<char>),
}

impl View for MatchCombiner {
    type V = MatchCombinerView;

    open spec fn view(&self) -> MatchCombinerView {
        match self {
            MatchCombiner::Any => MatchCombinerView::Any,
            MatchCombiner::All => MatchCombinerView::All,
            MatchCombiner::BooleanExpression(e) => MatchCombinerView::BooleanExpression(e@),
        }
    }
}

/// Whether `evalexpr` builds an operator tree from `expr`.
pub uninterp spec fn expression_parses(expr: Seq<char>) -> bool;

/// `evalexpr::build_operator_tree` (default numeric types) succeeds on
/// `expr`: the contract names that outcome, which depends on the text alone.
#[verifier::external_body]
fn builds_operator_tree(expr: &str) -> (r: bool)
    ensures
        r == expression_parses(expr@),
{
    evalexpr::build_operator_tree::<evalexpr::DefaultNumericTypes>(expr).is_ok()
}

/// The combination a text names: `ALL` (or nothing) and `ANY`, case aside,
/// or else the text itself, as given, as an expression when it parses as one.
pub open spec fn combiner_from_text(s: Seq<char>) -> Option<MatchCombinerView> {
    let u = ascii_upper(s);
    if u.len() == 0 || u == "ALL"@ {
        Some(MatchCombinerView::All)
    } else if u == "ANY"@ {
        Some(MatchCombinerView::Any)
    } else if expression_parses(s) {
        Some(MatchCombinerView::BooleanExpression(s))
    } else {
        None
    }
}

impl MatchCombiner {
    /// Reads a combination.
    pub fn from_str(s: &str) -> (r: Result<MatchCombiner, ConfigError>)
        ensures
            match combiner_from_text(s@) {
                Some(c) => r matches Ok(x) && x@ == c,
                None => r == Err::<MatchCombiner, ConfigError>(ConfigError::BadExpression),
            },
    {
        let u = to_ascii_uppercase(s);
        if u.as_str().unicode_len() == 0 || same_text(u.as_str(), "ALL") {
            Ok(MatchCombiner::All)
        } else if same_text(u.as_str(), "ANY") {
            Ok(MatchCombiner::Any)
        } else if builds_operator_tree(s) {
            Ok(MatchCombiner::BooleanExpression(String::from_str(s)))
        } else {
            Err(ConfigError::BadExpression)
        }
    }
}

// ---------------------------------------------------------------------------
// Building checks from the command line
// ---------------------------------------------------------------------------

/// One option of the command line, as the checks are built from them.
#[derive(Debug)]
pub enum TypeHelper {
    /// `-j`: the pointer that starts a check.
    PointerBufS(JsonPointer),
    /// `-p`: the pointer to the value to compare with.
    PointerBufD(JsonPointer),
    /// `-v`: the value to compare with.
    Value(JsonValue),
    /// `-r`: the resource holding the value to compare with.
    Resource(K8SResource),
    /// `-o`: how to compare.
    Contains(Contains),
    /// `-i`: whether a missing resource lets the check pass.
    BoolI(bool),
    /// A kind the check applies to.
    StringK(String),
    /// The value a mutation writes.
    ValueM(JsonValue),
    /// The resource holding the value a mutation writes.
    ResourceM(K8SResource),
    /// The pointer to the value a mutation writes.
    PointerBufDM(JsonPointer),
}

pub enum TypeHelperView {
    PointerBufS(Seq<Seq<char>>),
    PointerBufD(Seq<Seq<char>>),
    Value(JsonView),
    Resource(K8SResourceView),
    Contains(Contains),
    BoolI(bool),
    StringK(Seq<char>),
    ValueM(JsonView),
    ResourceM(K8SResourceView),
    PointerBufDM(Seq<Seq<char>>),
}

impl View for TypeHelper {
    type V = TypeHelperView;

    open spec fn view(&self) -> TypeHelperView {
        match self {
            TypeHelper::PointerBufS(p) => TypeHelperView::PointerBufS(p@),
            TypeHelper::PointerBufD(p) => TypeHelperView::PointerBufD(p@),
            TypeHelper::Value(v) => TypeHelperView::Value(v@),
            TypeHelper::Resource(r) => TypeHelperView::Resource(r@),
            TypeHelper::Contains(c) => TypeHelperView::Contains(*c),
            TypeHelper::BoolI(b) => TypeHelperView::BoolI(*b),
            TypeHelper::StringK(k) => TypeHelperView::StringK(k@),
            TypeHelper::ValueM(v) => TypeHelperView::ValueM(v@),
            TypeHelper::ResourceM(r) => TypeHelperView::ResourceM(r@),
            TypeHelper::PointerBufDM(p) => TypeHelperView::PointerBufDM(p@),
        }
    }
}

/// What the options of one check have set so far.
pub struct MatchSettings {
    pub query: Option<Seq<Seq<char>>>,
    pub kinds: Seq<Seq<char>>,
    pub contains: Contains,
    pub value: Option<JsonView>,
    pub resource: Option<K8SResourceView>,
    pub ignore: bool,
    pub target_jp: Option<Seq<Seq<char>>>,
    pub value_m: Option<JsonView>,
    pub resource_m: Option<K8SResourceView>,
    pub target_jp_m: Option<Seq<Seq<char>>>,
}

pub open spec fn initial_settings() -> MatchSettings {
    MatchSettings {
        query: None,
        kinds: Seq::empty(),
        contains: Contains::Equal,
        value: None,
        resource: None,
        ignore: false,
        target_jp: None,
        value_m: None,
        resource_m: None,
        target_jp_m: None,
    }
}

/// One option applied: a later option of the same sort overrides an earlier
/// one, except kinds, which accumulate.
pub open spec fn apply_option(s: MatchSettings, h: TypeHelperView) -> MatchSettings {
    match h {
        TypeHelperView::PointerBufS(p) => MatchSettings { query: Some(p), ..s },
        TypeHelperView::PointerBufD(p) => MatchSettings { target_jp: Some(p), ..s },
        TypeHelperView::Value(v) => MatchSettings { value: Some(v), ..s },
        TypeHelperView::Resource(r) => MatchSettings { resource: Some(r), ..s },
        TypeHelperView::BoolI(b) => MatchSettings { ignore: b, ..s },
        TypeHelperView::Contains(c) => MatchSettings { contains: c, ..s },
        TypeHelperView::ValueM(v) => MatchSettings { value_m: Some(v), ..s },
        TypeHelperView::ResourceM(r) => MatchSettings { resource_m: Some(r), ..s },
        TypeHelperView::PointerBufDM(p) => MatchSettings { target_jp_m: Some(p), ..s },
        TypeHelperView::StringK(k) => MatchSettings { kinds: s.kinds.push(k), ..s },
    }
}

/// The settings after the options `hs`, in order.
pub open spec fn settings_of(hs: Seq<TypeHelperView>) -> MatchSettings
    decreases hs.len(),
{
    if hs.len() == 0 {
        initial_settings()
    } else {
        apply_option(settings_of(hs.drop_last()), hs.last())
    }
}

/// The check that settings describe: it needs its starting pointer, and
/// neither the comparison nor the mutation may have both a value and a
/// pointer.
pub open spec fn match_from_settings(s: MatchSettings) -> Result<MatchView, ConfigError> {
    if s.query is None {
        Err(ConfigError::MissingJsonPath)
    } else if s.value is Some && s.target_jp is Some {
        Err(ConfigError::ValueAndPointer)
    } else if s.value_m is Some && s.target_jp_m is Some {
        Err(ConfigError::MutationValueAndPointer)
    } else {
        Ok(
            MatchView {
                json_path: s.query->0,
                kinds: s.kinds,
                contains: s.contains,
                value: if s.value is Some {
                    Some(MatchValueView::Value { value: s.value->0 })
                } else if s.target_jp is Some {
                    Some(
                        MatchValueView::JsonPath {
                            resource: s.resource,
                            ignore_resource_not_exist: s.ignore,
                            json_path: s.target_jp->0,
                        },
                    )
                } else {
                    None
                },
                value_to_be: if s.value_m is Some {
                    Some(MatchValueView::Value { value: s.value_m->0 })
                } else if s.target_jp_m is Some {
                    Some(
                        MatchValueView::JsonPath {
                            resource: s.resource_m,
                            ignore_resource_not_exist: false,
                            json_path: s.target_jp_m->0,
                        },
                    )
                } else {
                    None
                },
            },
        )
    }
}

pub open spec fn helper_views(hs: Seq<TypeHelper>) -> Seq<TypeHelperView> {
    hs.map_values(|h: TypeHelper| h@)
}

impl Match {
    /// Builds one check from its options, in command-line order.
    pub fn try_from(input: Vec<TypeHelper>) -> (r: Result<Match, ConfigError>)
        ensures
            match match_from_settings(settings_of(helper_views(input@))) {
                Ok(m) => r matches Ok(x) && x@ == m,
                Err(e) => r == Err::<Match, ConfigError>(e),
            },
    {
        let ghost hs = helper_views(input@);
        let mut input = input;
        let mut query: Option<JsonPointer> = None;
        let mut kinds: Vec<String> = Vec::new();
        let mut contains = Contains::Equal;
        let mut value: Option<JsonValue> = None;
        let mut resource: Option<K8SResource> = None;
        let mut ignore = false;
        let mut target_jp: Option<JsonPointer> = None;
        let mut value_m: Option<JsonValue> = None;
        let mut resource_m: Option<K8SResource> = None;
        let mut target_jp_m: Option<JsonPointer> = None;
        let ghost mut n: int = 0;
        assert(hs.take(0) =~= Seq::<TypeHelperView>::empty());
        while input.len() > 0
            invariant
                0 <= n <= hs.len(),
                helper_views(input@) == hs.skip(n),
                ({
                    let st = settings_of(hs.take(n));
                    &&& st.query == (match query {
                        Some(p) => Some(p@),
                        None => None::<Seq<Seq<char>>>,
                    })
                    &&& st.kinds == kinds@.map_values(|k: String| k@)
                    &&& st.contains == contains
                    &&& st.value == (match value {
                        Some(v) => Some(v@),
                        None => None::<JsonView>,
                    })
                    &&& st.resource == opt_resource(resource)
                    &&& st.ignore == ignore
                    &&& st.target_jp == (match target_jp {
                        Some(p) => Some(p@),
                        None => None::<Seq<Seq<char>>>,
                    })
                    &&& st.value_m == (match value_m {
                        Some(v) => Some(v@),
                        None => None::<JsonView>,
                    })
                    &&& st.resource_m == opt_resource(resource_m)
                    &&& st.target_jp_m == (match target_jp_m {
                        Some(p) => Some(p@),
                        None => None::<Seq<Seq<char>>>,
                    })
                }),
            decreases input.len(),
        {
            let ghost before = input@;
            assert(helper_views(before).len() == before.len());
            assert(n < hs.len());
            let h = input.remove(0);
            proof {
                assert(input@ =~= before.drop_first());
                assert(helper_views(before)[0] == h@);
                assert(hs.skip(n)[0] == h@);
                assert(hs.take(n + 1).drop_last() =~= hs.take(n));
                assert(hs.take(n + 1).last() == h@);
                assert forall|j: int| 0 <= j < input@.len() implies helper_views(input@)[j]
                    == hs.skip(n + 1)[j] by {
                    assert(input@[j] == before[j + 1]);
                    assert(helper_views(before)[j + 1] == hs.skip(n)[j + 1]);
                }
                assert(helper_views(input@) =~= hs.skip(n + 1));
            }
            match h {
                TypeHelper::PointerBufS(p) => {
                    query = Some(p);
                },
                TypeHelper::PointerBufD(p) => {
                    target_jp = Some(p);
                },
                TypeHelper::Value(v) => {
                    value = Some(v);
                },
                TypeHelper::Resource(r) => {
                    resource = Some(r);
                },
                TypeHelper::BoolI(b) => {
                    ignore = b;
                },
                TypeHelper::Contains(c) => {
                    contains = c;
                },
                TypeHelper::ValueM(v) => {
                    value_m = Some(v);
                },
                TypeHelper::ResourceM(r) => {
                    resource_m = Some(r);
                },
                TypeHelper::PointerBufDM(p) => {
                    target_jp_m = Some(p);
                },
                TypeHelper::StringK(k) => {
                    kinds.push(k);
                    assert(kinds@.map_values(|k: String| k@) =~= settings_of(hs.take(n)).kinds.push(
                        k@,
                    ));
                },
            }
            proof {
                n = n + 1;
            }
        }
        assert(hs.take(n) =~= hs);
        let query = match query {
            Some(q) => q,
            None => {
                return Err(ConfigError::MissingJsonPath);
            },
        };
        let value = match (value, target_jp) {
            (None, None) => None,
            (None, Some(p)) => Some(
                MatchValue::JsonPath { json_path: p, resource, ignore_resource_not_exist: ignore },
            ),
            (Some(v), None) => Some(MatchValue::Value { value: v }),
            (Some(_), Some(_)) => {
                return Err(ConfigError::ValueAndPointer);
            },
        };
        let value_to_be = match (value_m, target_jp_m) {
            (None, None) => None,
            (None, Some(p)) => Some(
                MatchValue::JsonPath {
                    resource: resource_m,
                    ignore_resource_not_exist: false,
                    json_path: p,
                },
            ),
            (Some(v), None) => Some(MatchValue::Value { value: v }),
            (Some(_), Some(_)) => {
                return Err(ConfigError::MutationValueAndPointer);
            },
        };
        Ok(Match { json_path: query, value, contains, value_to_be, kinds })
    }
}

// ---------------------------------------------------------------------------
// Grouping options into checks
// ---------------------------------------------------------------------------

/// The groups `chunk_by_value` makes of `s`: a new group starts at each
/// element on which `p` is false, except at the very start.
pub open spec fn chunk_spec<T>(s: Seq<T>, p: spec_fn(T) -> bool) -> Seq<Seq<T>>
    decreases s.len(),
{
    if s.len() == 0 {
        Seq::empty()
    } else {
        let prev = chunk_spec(s.drop_last(), p);
        let x = s.last();
        if !p(x) || prev.len() == 0 {
            prev.push(seq![x])
        } else {
            prev.update(prev.len() - 1, prev.last().push(x))
        }
    }
}

/// All the groups one after the other.
pub open spec fn concat_all<T>(ss: Seq<Seq<T>>) -> Seq<T>
    decreases ss.len(),
{
    if ss.len() == 0 {
        Seq::empty()
    } else {
        concat_all(ss.drop_last()) + ss.last()
    }
}

pub open spec fn vec_views<T>(v: Seq<Vec<T>>) -> Seq<Seq<T>> {
    v.map_values(|c: Vec<T>| c@)
}

/// Grouping loses and reorders nothing: the groups, one after the other, are
/// the input; and no group is empty.
pub proof fn law_chunks_partition<T>(s: Seq<T>, p: spec_fn(T) -> bool)
    ensures
        concat_all(chunk_spec(s, p)) == s,
        forall|i: int|
            0 <= i < chunk_spec(s, p).len() ==> #[trigger] chunk_spec(s, p)[i].len() > 0,
    decreases s.len(),
{
    if s.len() > 0 {
        law_chunks_partition(s.drop_last(), p);
        let prev = chunk_spec(s.drop_last(), p);
        let x = s.last();
        if !p(x) || prev.len() == 0 {
            assert(prev.push(seq![x]).drop_last() =~= prev);
            assert(s.drop_last() + seq![x] =~= s);
        } else {
            let c = prev.update(prev.len() - 1, prev.last().push(x));
            assert(c.drop_last() =~= prev.drop_last());
            assert(concat_all(prev) == concat_all(prev.drop_last()) + prev.last());
            assert(concat_all(prev.drop_last()) + prev.last().push(x) =~= (concat_all(
                prev.drop_last(),
            ) + prev.last()).push(x));
            assert(s.drop_last().push(x) =~= s);
        }
    }
}

/// A group starts exactly at each element on which the predicate fails:
/// within a group every element after the first satisfies it, and the first
/// element of every group but the first fails it.
pub proof fn law_chunk_boundaries<T>(s: Seq<T>, p: spec_fn(T) -> bool)
    ensures
        forall|i: int, j: int|
            0 <= i < chunk_spec(s, p).len() && 0 < j < chunk_spec(s, p)[i].len() ==> p(
                #[trigger] chunk_spec(s, p)[i][j],
            ),
        forall|i: int| 0 < i < chunk_spec(s, p).len() ==> !p(#[trigger] chunk_spec(s, p)[i][0]),
    decreases s.len(),
{
    if s.len() > 0 {
        law_chunk_boundaries(s.drop_last(), p);
        law_chunks_partition(s.drop_last(), p);
        let prev = chunk_spec(s.drop_last(), p);
        let x = s.last();
        let c = chunk_spec(s, p);
        if !p(x) || prev.len() == 0 {
            assert forall|i: int, j: int| 0 <= i < c.len() && 0 < j < c[i].len() implies p(
                #[trigger] c[i][j],
            ) by {
                if i < prev.len() {
                    assert(c[i] == prev[i]);
                }
            }
            assert forall|i: int| 0 < i < c.len() implies !p(#[trigger] c[i][0]) by {
                if i < prev.len() {
                    assert(c[i] == prev[i]);
                }
            }
        } else {
            let k = prev.len() - 1;
            assert(prev[k].len() > 0);
            assert forall|i: int, j: int| 0 <= i < c.len() && 0 < j < c[i].len() implies p(
                #[trigger] c[i][j],
            ) by {
                if i < k {
                    assert(c[i] == prev[i]);
                } else {
                    assert(c[i] == prev[k].push(x));
                    if j < prev[k].len() {
                        assert(c[i][j] == prev[k][j]);
                    }
                }
            }
            assert forall|i: int| 0 < i < c.len() implies !p(#[trigger] c[i][0]) by {
                if i < k {
                    assert(c[i] == prev[i]);
                } else {
                    assert(c[i] == prev[k].push(x));
                    assert(c[i][0] == prev[k][0]);
                }
            }
        }
    }
}

/// Splitting a sequence into groups, a new group starting at each element on
/// which `predicate` is false.
pub trait VecExt<T>: View<V = Seq<T>> + Sized {
    fn chunk_by_value<F: Fn(&T) -> bool>(self, predicate: F) -> (r: Vec<Vec<T>>)
        requires
            forall|x: &T| #[trigger] predicate.requires((x,)),
        ensures
            concat_all(vec_views(r@)) == self@,
            forall|i: int| 0 <= i < r@.len() ==> (#[trigger] r@[i])@.len() > 0,
            forall|i: int, j: int|
                0 <= i < r@.len() && 0 < j < r@[i]@.len() ==> predicate.ensures(
                    (&#[trigger] r@[i]@[j],),
                    true,
                ),
            forall|i: int| 0 < i < r@.len() ==> predicate.ensures((&(#[trigger] r@[i])@[0],), false),
            forall|p: spec_fn(T) -> bool|
                (forall|x: T, b: bool| predicate.ensures((&x,), b) ==> b == p(x)) ==> vec_views(r@)
                    == #[trigger] chunk_spec(self@, p),
    ;
}

impl<T> VecExt<T> for Vec<T> {
    fn chunk_by_value<F: Fn(&T) -> bool>(self, predicate: F) -> (r: Vec<Vec<T>>) {
        let ghost s = self@;
        let mut input = self;
        let mut result: Vec<Vec<T>> = Vec::new();
        let mut chunk: Vec<T> = Vec::new();
        let ghost mut n: int = 0;
        while input.len() > 0
            invariant
                0 <= n <= s.len(),
                input@ == s.skip(n),
                forall|x: &T| #[trigger] predicate.requires((x,)),
                (n == 0 && result.len() == 0 && chunk.len() == 0) || (n > 0 && chunk.len() > 0),
                concat_all(vec_views(result@)) + chunk@ == s.take(n),
                forall|i: int| 0 <= i < result@.len() ==> (#[trigger] result@[i])@.len() > 0,
                forall|i: int, j: int|
                    0 <= i < result@.len() && 0 < j < result@[i]@.len() ==> predicate.ensures(
                        (&#[trigger] result@[i]@[j],),
                        true,
                    ),
                forall|i: int|
                    0 < i < result@.len() ==> predicate.ensures((&(#[trigger] result@[i])@[0],), false),
                forall|j: int| 0 < j < chunk@.len() ==> predicate.ensures((&#[trigger] chunk@[j],), true),
                result@.len() > 0 ==> predicate.ensures((&chunk@[0],), false),
                forall|p: spec_fn(T) -> bool|
                    (forall|x: T, b: bool| predicate.ensures((&x,), b) ==> b == p(x)) ==> n > 0
                        ==> vec_views(result@).push(chunk@) == #[trigger] chunk_spec(
                        s.take(n),
                        p,
                    ),
            decreases input.len(),
        {
            let ghost before = input@;
            let ghost old_result = result@;
            let ghost old_chunk = chunk@;
            let x = input.remove(0);
            let b = predicate(&x);
            proof {
                assert(input@ =~= s.skip(n + 1));
                assert(s.take(n + 1).drop_last() =~= s.take(n));
                assert(s.take(n + 1).last() == x);
            }
            if !b && chunk.len() > 0 {
                proof {
                    let vr = vec_views(result@);
                    assert(vr.push(chunk@).drop_last() =~= vr);
                    assert(vec_views(result@.push(chunk)) =~= vr.push(chunk@));
                }
                result.push(chunk);
                chunk = Vec::new();
                assert(concat_all(vec_views(result@)) + chunk@ =~= s.take(n));
            }
            chunk.push(x);
            proof {
                assert(concat_all(vec_views(result@)) + chunk@ =~= s.take(n + 1));
                assert forall|p: spec_fn(T) -> bool|
                    (forall|y: T, c: bool| predicate.ensures((&y,), c) ==> c == p(y)) implies (vec_views(result@).push(chunk@) == #[trigger] chunk_spec(
                    s.take(n + 1),
                    p,
                )) by {
                    assert(b == p(x));
                    if n == 0 {
                        assert(s.take(0) =~= Seq::<T>::empty());
                        assert(vec_views(result@) =~= Seq::<Seq<T>>::empty());
                        assert(chunk@ =~= seq![x]);
                    } else {
                        let prev = chunk_spec(s.take(n), p);
                        assert(prev == vec_views(old_result).push(old_chunk));
                        if !b {
                            assert(vec_views(result@) =~= vec_views(old_result).push(old_chunk));
                            assert(chunk@ =~= seq![x]);
                        } else {
                            assert(vec_views(result@) =~= vec_views(old_result));
                            assert(prev.update(prev.len() - 1, prev.last().push(x)) =~= vec_views(
                                old_result,
                            ).push(old_chunk.push(x)));
                        }
                    }
                }
                n = n + 1;
            }
        }
        assert(s.take(n) =~= s);
        if chunk.len() > 0 {
            proof {
                let vr = vec_views(result@);
                assert(vr.push(chunk@).drop_last() =~= vr);
                assert(vec_views(result@.push(chunk)) =~= vr.push(chunk@));
            }
            result.push(chunk);
        } else {
            assert(s.len() == 0);
            assert(vec_views(result@) =~= Seq::<Seq<T>>::empty());
        }
        result
    }
}

// ---------------------------------------------------------------------------
// Putting options in command-line order
// ---------------------------------------------------------------------------

/// `s` with `x` inserted after every element whose position is at most that
/// of `x`, counted from the end.
pub open spec fn insert_by_position<A>(s: Seq<(A, usize)>, x: (A, usize)) -> Seq<(A, usize)>
    decreases s.len(),
{
    if s.len() == 0 {
        seq![x]
    } else if s.last().1 <= x.1 {
        s.push(x)
    } else {
        insert_by_position(s.drop_last(), x).push(s.last())
    }
}

/// The options ordered by their position on the command line, options at
/// the same position keeping their order (insertion sort).
pub open spec fn sort_by_position<A>(s: Seq<(A, usize)>) -> Seq<(A, usize)>
    decreases s.len(),
{
    if s.len() == 0 {
        s
    } else {
        insert_by_position(sort_by_position(s.drop_last()), s.last())
    }
}

proof fn lemma_insert_at<A>(s: Seq<(A, usize)>, x: (A, usize), p: int)
    requires
        0 <= p <= s.len(),
        forall|j: int| p <= j < s.len() ==> #[trigger] s[j].1 > x.1,
        p == 0 || s[p - 1].1 <= x.1,
    ensures
        insert_by_position(s, x) == s.take(p).push(x) + s.skip(p),
    decreases s.len(),
{
    if s.len() == p {
        assert(s.take(p) =~= s);
        assert(s.skip(p) =~= Seq::<(A, usize)>::empty());
        if p == 0 {
            assert(seq![x] =~= Seq::<(A, usize)>::empty().push(x) + Seq::<(A, usize)>::empty());
        } else {
            assert(s.push(x) =~= s.push(x) + Seq::<(A, usize)>::empty());
        }
    } else {
        let d = s.drop_last();
        assert(s.last().1 > x.1);
        lemma_insert_at(d, x, p);
        assert(d.take(p) =~= s.take(p));
        assert((d.take(p).push(x) + d.skip(p)).push(s.last()) =~= s.take(p).push(x) + s.skip(p));
    }
}

/// Orders the options by their position on the command line.
fn sort_options(args: Vec<(TypeHelper, usize)>) -> (r: Vec<(TypeHelper, usize)>)
    ensures
        r@ == sort_by_position(args@),
{
    let ghost s = args@;
    let mut input = args;
    let mut out: Vec<(TypeHelper, usize)> = Vec::new();
    let ghost mut n: int = 0;
    assert(s.take(0) =~= Seq::<(TypeHelper, usize)>::empty());
    while input.len() > 0
        invariant
            0 <= n <= s.len(),
            input@ == s.skip(n),
            out@ == sort_by_position(s.take(n)),
        decreases input.len(),
    {
        let x = input.remove(0);
        proof {
            assert(input@ =~= s.skip(n + 1));
            assert(s.take(n + 1).drop_last() =~= s.take(n));
            assert(s.take(n + 1).last() == x);
        }
        let mut p = out.len();
        while p > 0 && out[p - 1].1 > x.1
            invariant
                p <= out.len(),
                forall|j: int| p <= j < out.len() ==> #[trigger] out@[j].1 > x.1,
            decreases p,
        {
            p = p - 1;
        }
        proof {
            lemma_insert_at(out@, x, p as int);
        }
        let ghost before = out@;
        out.insert(p, x);
        proof {
            assert(out@ =~= before.take(p as int).push(x) + before.skip(p as int));
            n = n + 1;
        }
    }
    assert(s.take(n) =~= s);
    out
}

proof fn lemma_insert_sorted<A>(s: Seq<(A, usize)>, x: (A, usize))
    requires
        forall|i: int, j: int| 0 <= i < j < s.len() ==> s[i].1 <= s[j].1,
    ensures
        insert_by_position(s, x).len() == s.len() + 1,
        forall|i: int, j: int|
            0 <= i < j < insert_by_position(s, x).len() ==> insert_by_position(s, x)[i].1
                <= insert_by_position(s, x)[j].1,
        forall|i: int|
            0 <= i < insert_by_position(s, x).len() ==> insert_by_position(s, x)[i].1 == x.1 || (
            exists|j: int| 0 <= j < s.len() && s[j].1 == #[trigger] insert_by_position(s, x)[i].1),
    decreases s.len(),
{
    if s.len() > 0 && s.last().1 > x.1 {
        let d = s.drop_last();
        lemma_insert_sorted(d, x);
        let r = insert_by_position(d, x);
        assert forall|i: int| 0 <= i < r.len() implies r[i].1 <= s.last().1 by {
            if r[i].1 != x.1 {
                let j = choose|j: int| 0 <= j < d.len() && d[j].1 == r[i].1;
                assert(d[j] == s[j]);
            }
        }
        assert forall|i: int| 0 <= i < r.push(s.last()).len() implies r.push(s.last())[i].1 == x.1
            || (exists|j: int| 0 <= j < s.len() && s[j].1 == #[trigger] r.push(s.last())[i].1) by {
            if i < r.len() {
                if r[i].1 != x.1 {
                    let j = choose|j: int| 0 <= j < d.len() && d[j].1 == r[i].1;
                    assert(s[j] == d[j]);
                }
            } else {
                assert(s[s.len() - 1].1 == r.push(s.last())[i].1);
            }
        }
    } else if s.len() > 0 {
        assert forall|i: int| 0 <= i < s.push(x).len() implies s.push(x)[i].1 == x.1 || (exists|
            j: int,
        | 0 <= j < s.len() && s[j].1 == #[trigger] s.push(x)[i].1) by {
            if i < s.len() {
                assert(s[i].1 == s.push(x)[i].1);
            }
        }
    }
}

proof fn lemma_insert_multiset<A>(s: Seq<(A, usize)>, x: (A, usize))
    ensures
        insert_by_position(s, x).to_multiset() =~= s.to_multiset().insert(x),
    decreases s.len(),
{
    broadcast use vstd::seq_lib::group_to_multiset_ensures;

    if s.len() > 0 && s.last().1 > x.1 {
        let d = s.drop_last();
        lemma_insert_multiset(d, x);
        assert(d.push(s.last()) =~= s);
    }
}

/// Ordering by position gives every option, each as many times as it was
/// given, in non-decreasing order of position.
pub proof fn law_sorted_by_position<A>(s: Seq<(A, usize)>)
    ensures
        sort_by_position(s).len() == s.len(),
        sort_by_position(s).to_multiset() =~= s.to_multiset(),
        forall|i: int, j: int|
            0 <= i < j < s.len() ==> sort_by_position(s)[i].1 <= sort_by_position(s)[j].1,
    decreases s.len(),
{
    broadcast use vstd::seq_lib::group_to_multiset_ensures;

    if s.len() > 0 {
        law_sorted_by_position(s.drop_last());
        lemma_insert_sorted(sort_by_position(s.drop_last()), s.last());
        lemma_insert_multiset(sort_by_position(s.drop_last()), s.last());
        assert(s.drop_last().push(s.last()) =~= s);
    }
}

impl TypeHelper {
    /// Whether this option starts a new check.
    pub fn is_pointer_start(&self) -> (r: bool)
        ensures
            r == self@ is PointerBufS,
    {
        match self {
            TypeHelper::PointerBufS(_) => true,
            _ => false,
        }
    }
}

/// Whether an option continues the current check rather than starting one.
fn continues_option(h: &TypeHelper) -> (b: bool)
    ensures
        b == continues_check(*h),
{
    !h.is_pointer_start()
}

/// Whether an option continues the current check rather than starting one.
pub open spec fn continues_check(h: TypeHelper) -> bool {
    !(h@ is PointerBufS)
}

/// The checks that groups of options describe, or the first error.
pub open spec fn build_all(groups: Seq<Seq<TypeHelper>>) -> Result<Seq<MatchView>, ConfigError>
    decreases groups.len(),
{
    if groups.len() == 0 {
        Ok(Seq::empty())
    } else {
        match build_all(groups.drop_last()) {
            Err(e) => Err(e),
            Ok(ms) => match match_from_settings(settings_of(helper_views(groups.last()))) {
                Err(e) => Err(e),
                Ok(m) => Ok(ms.push(m)),
            },
        }
    }
}

/// The checks the command-line options describe: the options in
/// command-line order, grouped so that each `-j` starts a check.
pub open spec fn matches_from_arguments(args: Seq<(TypeHelper, usize)>) -> Result<
    Seq<MatchView>,
    ConfigError,
> {
    let helpers = sort_by_position(args).map_values(|a: (TypeHelper, usize)| a.0);
    build_all(chunk_spec(helpers, |h: TypeHelper| continues_check(h)))
}

impl Matches {
    /// Builds the checks from the command-line options, each with its
    /// position on the command line.
    pub fn from_arguments(args: Vec<(TypeHelper, usize)>) -> (r: Result<Matches, ConfigError>)
        ensures
            match matches_from_arguments(args@) {
                Ok(ms) => r matches Ok(x) && x@ == ms,
                Err(e) => r matches Err(x) && x == e,
            },
    {
        let sorted = sort_options(args);
        let ghost ss = sorted@;
        let mut sorted = sorted;
        let mut helpers: Vec<TypeHelper> = Vec::new();
        while sorted.len() > 0
            invariant
                helpers@ + sorted@.map_values(|a: (TypeHelper, usize)| a.0) == ss.map_values(
                    |a: (TypeHelper, usize)| a.0,
                ),
            decreases sorted.len(),
        {
            let ghost before = sorted@;
            let (h, _) = sorted.remove(0);
            assert(before.map_values(|a: (TypeHelper, usize)| a.0) =~= seq![h] + sorted@.map_values(
                |a: (TypeHelper, usize)| a.0,
            ));
            assert(helpers@.push(h) + sorted@.map_values(|a: (TypeHelper, usize)| a.0) =~= helpers@
                + before.map_values(|a: (TypeHelper, usize)| a.0));
            helpers.push(h);
        }
        assert(helpers@ =~= ss.map_values(|a: (TypeHelper, usize)| a.0));
        let ghost hs = helpers@;
        let groups = helpers.chunk_by_value(continues_option);
        let ghost gs = vec_views(groups@);
        assert(gs == chunk_spec(hs, |h: TypeHelper| continues_check(h)));
        let mut groups = groups;
        let mut out: Vec<Match> = Vec::new();
        let ghost mut n: int = 0;
        assert(gs.take(0) =~= Seq::<Seq<TypeHelper>>::empty());
        assert(out@.map_values(|m: Match| m@) =~= Seq::<MatchView>::empty());
        assert(gs.skip(0) =~= gs);
        assert(matches_from_arguments(args@) == build_all(gs));
        while groups.len() > 0
            invariant
                matches_from_arguments(args@) == build_all(gs),
                0 <= n <= gs.len(),
                vec_views(groups@) == gs.skip(n),
                build_all(gs.take(n)) == Ok::<Seq<MatchView>, ConfigError>(
                    out@.map_values(|m: Match| m@),
                ),
            decreases groups.len(),
        {
            let ghost before = groups@;
            assert(vec_views(before).len() == before.len());
            let g = groups.remove(0);
            proof {
                assert(groups@ =~= before.drop_first());
                assert(vec_views(before)[0] == g@);
                assert(vec_views(groups@) =~= gs.skip(n + 1)) by {
                    assert forall|j: int| 0 <= j < groups@.len() implies vec_views(groups@)[j]
                        == gs.skip(n + 1)[j] by {
                        assert(groups@[j] == before[j + 1]);
                        assert(vec_views(before)[j + 1] == gs.skip(n)[j + 1]);
                    }
                }
                assert(gs.take(n + 1).drop_last() =~= gs.take(n));
                assert(gs.take(n + 1).last() == g@);
            }
            let ghost gv = g@;
            match Match::try_from(g) {
                Ok(m) => {
                    let ghost prev = out@.map_values(|m: Match| m@);
                    out.push(m);
                    assert(out@.map_values(|m: Match| m@) =~= prev.push(out@.last()@));
                },
                Err(e) => {
                    proof {
                        assert(build_all(gs.take(n + 1)) == Err::<Seq<MatchView>, ConfigError>(e));
                        lemma_build_all_error(gs, n + 1);
                    }
                    return Err(e);
                },
            }
            proof {
                n = n + 1;
            }
        }
        assert(gs.take(n) =~= gs);
        Ok(Matches(out))
    }
}

proof fn lemma_concat_first<T>(g: Seq<Seq<T>>)
    requires
        g.len() > 0,
        g[0].len() > 0,
    ensures
        concat_all(g).len() > 0,
        concat_all(g)[0] == g[0][0],
    decreases g.len(),
{
    if g.len() == 1 {
        assert(g.drop_last() =~= Seq::<Seq<T>>::empty());
        assert(concat_all(g.drop_last()) == Seq::<T>::empty());
        assert(concat_all(g) == concat_all(g.drop_last()) + g.last());
        assert(concat_all(g) =~= g[0]);
    } else {
        let d = g.drop_last();
        assert(d[0] == g[0]);
        lemma_concat_first(d);
        assert(concat_all(g) == concat_all(d) + g.last());
        assert((concat_all(d) + g.last())[0] == concat_all(d)[0]);
    }
}

proof fn lemma_build_all_len(gs: Seq<Seq<TypeHelper>>)
    ensures
        build_all(gs) matches Ok(ms) ==> ms.len() == gs.len(),
    decreases gs.len(),
{
    if gs.len() > 0 {
        lemma_build_all_len(gs.drop_last());
    }
}

/// The options grouped into checks, each group starting where an option
/// does not continue the check at hand.
pub open spec fn option_groups(hs: Seq<TypeHelper>) -> Seq<Seq<TypeHelper>> {
    chunk_spec(hs, |h: TypeHelper| continues_check(h))
}

/// Only a `-j` option starts a check; every other option belongs to the
/// check at hand.  So when the options (in command-line order) start with
/// `-j`, every check is built from exactly one `-j`, standing first, and
/// there are as many checks as groups.
pub proof fn law_only_pointers_start_checks(hs: Seq<TypeHelper>)
    ensures
        forall|h: TypeHelper| #[trigger] continues_check(h) <==> !(h@ is PointerBufS),
        hs.len() > 0 && hs[0]@ is PointerBufS ==> forall|i: int|
            0 <= i < option_groups(hs).len() ==> (#[trigger] option_groups(hs)[i])[0]@ is PointerBufS,
        forall|i: int, j: int|
            0 <= i < option_groups(hs).len() && 0 < j < option_groups(hs)[i].len() ==> !((
            #[trigger] option_groups(hs)[i][j])@ is PointerBufS),
        build_all(option_groups(hs)) matches Ok(ms) ==> ms.len() == option_groups(hs).len(),
{
    let p = |h: TypeHelper| continues_check(h);
    let gs = chunk_spec(hs, p);
    law_chunks_partition(hs, p);
    law_chunk_boundaries(hs, p);
    lemma_build_all_len(gs);
    if hs.len() > 0 && hs[0]@ is PointerBufS {
        assert(gs.len() > 0) by {
            if gs.len() == 0 {
                assert(concat_all(gs) =~= Seq::<TypeHelper>::empty());
            }
        }
        assert(gs[0].len() > 0);
        lemma_concat_first(gs);
        assert forall|i: int| 0 <= i < gs.len() implies (#[trigger] gs[i])[0]@ is PointerBufS by {
            if i > 0 {
                assert(!p(gs[i][0]));
            }
        }
    }
    assert forall|i: int, j: int| 0 <= i < gs.len() && 0 < j < gs[i].len() implies !((
    #[trigger] gs[i][j])@ is PointerBufS) by {
        assert(p(gs[i][j]));
    }
}

/// The checks built from command-line options are one per group of the
/// options in command-line order, each group led by its `-j`.
pub proof fn law_one_check_per_pointer(args: Seq<(TypeHelper, usize)>)
    ensures
        ({
            let hs = sort_by_position(args).map_values(|a: (TypeHelper, usize)| a.0);
            matches_from_arguments(args) matches Ok(ms) ==> ms.len() == option_groups(hs).len()
        }),
{
    let hs = sort_by_position(args).map_values(|a: (TypeHelper, usize)| a.0);
    assert(chunk_spec(hs, |h: TypeHelper| continues_check(h)) == option_groups(hs));
    law_only_pointers_start_checks(hs);
}

proof fn lemma_build_all_error(gs: Seq<Seq<TypeHelper>>, k: int)
    requires
        0 <= k <= gs.len(),
        build_all(gs.take(k)) is Err,
    ensures
        build_all(gs) == build_all(gs.take(k)),
    decreases gs.len() - k,
{
    if k < gs.len() {
        assert(gs.take(k + 1).drop_last() =~= gs.take(k));
        lemma_build_all_error(gs, k + 1);
    } else {
        assert(gs.take(k) =~= gs);
    }
}

} // verus!
