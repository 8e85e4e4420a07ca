//! JSON pointers (RFC 6901): reading the node a pointer designates, and
//! writing a value there the way `jsonptr`'s `assign` does, creating the
//! missing part of the path.
use vstd::prelude::*;

use crate::json::{JsonValue, JsonView};
use crate::text::{find_char, split_char, lemma_find_char};

verus! {

// ---------------------------------------------------------------------------
// The pointer text
// ---------------------------------------------------------------------------

/// Every `~` of `s` is followed by `0` or `1`.
pub open spec fn escapes_valid(s: Seq<char>) -> bool {
    forall|i: int|
        0 <= i < s.len() && #[trigger] s[i] == '~' ==> i + 1 < s.len() && (s[i + 1] == '0' || s[i + 1] == '1')
}

/// A reference token with its escapes undone: `~1` stands for `/`, `~0` for `~`.
pub open spec fn unescape(t: Seq<char>) -> Seq<char>
    decreases t.len(),
{
    if t.len() == 0 {
        t
    } else if t.len() >= 2 && t[0] == '~' && t[1] == '0' {
        seq!['~'] + unescape(t.skip(2))
    } else if t.len() >= 2 && t[0] == '~' && t[1] == '1' {
        seq!['/'] + unescape(t.skip(2))
    } else {
        seq![t[0]] + unescape(t.skip(1))
    }
}

/// The reference tokens of a pointer text, or `None` when the text is not a
/// JSON pointer: the empty text has no token; any other text starts with `/`,
/// has only valid escapes, and holds one token after each `/`.
pub open spec fn pointer_tokens(text: Seq<char>) -> Option<Seq<Seq<char>>> {
    if text.len() == 0 {
        Some(Seq::empty())
    } else if text[0] != '/' || !escapes_valid(text) {
        None
    } else {
        Some(split_char(text.skip(1), '/').map_values(|t: Seq<char>| unescape(t)))
    }
}

/// Parses a pointer text with `jsonptr::PointerBuf::parse` and hands out its
/// tokens, unescaped (`Token::decoded`).  The contract claims that jsonptr
/// accepts exactly the texts RFC 6901 allows (as `pointer_tokens` states it:
/// the validation in `jsonptr`'s `validate_bytes`) and splits and unescapes
/// them as `Pointer::tokens` and `Token::decoded` do.
#[verifier::external_body]
fn parse_pointer_text(text: &str) -> (r: Option<Vec<String>>)
    ensures
        match r {
            Some(tokens) => pointer_tokens(text@) == Some(
                tokens@.map_values(|t: String| t@),
            ),
            None => pointer_tokens(text@) is None,
        },
{
    jsonptr::PointerBuf::parse(text).ok().map(
        |p| p.tokens().map(|t| t.decoded().into_owned()).collect(),
    )
}

/// A JSON pointer, held as its unescaped reference tokens.
#[derive(Debug)]
pub struct JsonPointer {
    pub tokens: Vec<String>,
}

impl View for JsonPointer {
    type V = Seq<Seq<char>>;

    open spec fn view(&self) -> Seq<Seq<char>> {
        self.tokens@.map_values(|t: String| t@)
    }
}

/// Why a pointer text was refused.
#[derive(Debug, PartialEq, Eq, Structural, Clone, Copy)]
pub enum PointerError {
    /// The text is not a JSON pointer.
    Malformed,
    /// A token that must index an array does not, or points past its end.
    BadIndex,
}

impl JsonPointer {
    /// Parses a pointer text such as `/spec/replicas`.
    pub fn parse(text: &str) -> (r: Result<JsonPointer, PointerError>)
        ensures
            match r {
                Ok(p) => pointer_tokens(text@) == Some(p@),
                Err(e) => pointer_tokens(text@) is None && e == PointerError::Malformed,
            },
    {
        match parse_pointer_text(text) {
            Some(tokens) => Ok(JsonPointer { tokens }),
            None => Err(PointerError::Malformed),
        }
    }

    /// A copy of the pointer.
    pub fn duplicate(&self) -> (r: JsonPointer)
        ensures
            r@ == self@,
    {
        let mut tokens: Vec<String> = Vec::new();
        let mut i: usize = 0;
        while i < self.tokens.len()
            invariant
                i <= self.tokens.len(),
                tokens.len() == i,
                forall|j: int| 0 <= j < i ==> #[trigger] tokens@[j]@ == self.tokens@[j]@,
            decreases self.tokens.len() - i,
        {
            tokens.push(self.tokens[i].clone());
            i = i + 1;
        }
        let r = JsonPointer { tokens };
        assert(r@ =~= self@);
        r
    }
}

// ---------------------------------------------------------------------------
// Array indices
// ---------------------------------------------------------------------------

pub open spec fn is_digit(c: char) -> bool {
    '0' <= c && c <= '9'
}

/// The number a string of decimal digits denotes.
pub open spec fn digits_value(s: Seq<char>) -> nat
    decreases s.len(),
{
    if s.len() == 0 {
        0
    } else {
        digits_value(s.drop_last()) * 10 + ((s.last() as int) - ('0' as int)) as nat
    }
}

/// The array index a token names: decimal digits without a leading zero
/// (but `0` itself), small enough for a `usize`.
pub open spec fn numeric_index(t: Seq<char>) -> Option<nat> {
    if t.len() > 0 && (forall|i: int| 0 <= i < t.len() ==> is_digit(#[trigger] t[i])) && (t.len()
        == 1 || t[0] != '0') && digits_value(t) <= usize::MAX {
        Some(digits_value(t))
    } else {
        None
    }
}

/// The token `-`, which names the position just past the end of an array.
pub open spec fn is_next_token(t: Seq<char>) -> bool {
    t == seq!['-']
}

/// The position a token names in an array of length `len`, when it names an
/// existing element (used when reading).
pub open spec fn index_within(t: Seq<char>, len: nat) -> Option<nat> {
    match numeric_index(t) {
        Some(i) => if i < len {
            Some(i)
        } else {
            None
        },
        None => None,
    }
}

/// The position a token names in an array of length `len`, the end of the
/// array included (used when writing).
pub open spec fn index_upto(t: Seq<char>, len: nat) -> Option<nat> {
    if is_next_token(t) {
        Some(len)
    } else {
        match numeric_index(t) {
            Some(i) => if i <= len {
                Some(i)
            } else {
                None
            },
            None => None,
        }
    }
}

proof fn lemma_digits_value_prefix(s: Seq<char>, k: int)
    requires
        0 <= k <= s.len(),
    ensures
        digits_value(s.take(k)) <= digits_value(s),
    decreases s.len(),
{
    if k < s.len() {
        assert(s.drop_last().take(k) =~= s.take(k));
        lemma_digits_value_prefix(s.drop_last(), k);
    } else {
        assert(s.take(k) =~= s);
    }
}

/// The array index a token names, if any.
fn numeric_index_of(t: &str) -> (r: Option<usize>)
    ensures
        match r {
            Some(i) => numeric_index(t@) == Some(i as nat),
            None => numeric_index(t@) is None,
        },
{
    let n = t.unicode_len();
    if n == 0 {
        return None;
    }
    if n > 1 && t.get_char(0) == '0' {
        return None;
    }
    let mut acc: usize = 0;
    let mut i: usize = 0;
    while i < n
        invariant
            n == t@.len(),
            i <= n,
            acc as nat == digits_value(t@.take(i as int)),
            forall|j: int| 0 <= j < i ==> is_digit(#[trigger] t@[j]),
        decreases n - i,
    {
        let c = t.get_char(i);
        if !('0' <= c && c <= '9') {
            assert(!is_digit(t@[i as int]));
            return None;
        }
        let d = ((c as u32) - ('0' as u32)) as usize;
        assert(t@.take(i + 1).drop_last() =~= t@.take(i as int));
        assert(t@.take(i + 1).last() == c);
        match acc.checked_mul(10) {
            None => {
                proof {
                    lemma_digits_value_prefix(t@, i + 1);
                }
                return None;
            },
            Some(m) => match m.checked_add(d) {
                None => {
                    proof {
                        lemma_digits_value_prefix(t@, i + 1);
                    }
                    return None;
                },
                Some(v) => {
                    acc = v;
                },
            },
        }
        i = i + 1;
    }
    assert(t@.take(n as int) =~= t@);
    Some(acc)
}

/// The existing element of an array of length `len` that a token names.
fn index_within_of(t: &str, len: usize) -> (r: Option<usize>)
    ensures
        match r {
            Some(i) => index_within(t@, len as nat) == Some(i as nat),
            None => index_within(t@, len as nat) is None,
        },
{
    match numeric_index_of(t) {
        Some(i) => if i < len {
            Some(i)
        } else {
            None
        },
        None => None,
    }
}

/// The position, up to the end, of an array of length `len` that a token names.
fn index_upto_of(t: &str, len: usize) -> (r: Option<usize>)
    ensures
        match r {
            Some(i) => index_upto(t@, len as nat) == Some(i as nat),
            None => index_upto(t@, len as nat) is None,
        },
{
    if t.unicode_len() == 1 && t.get_char(0) == '-' {
        assert(t@ =~= seq!['-']);
        return Some(len);
    }
    assert(!is_next_token(t@));
    match numeric_index_of(t) {
        Some(i) => if i <= len {
            Some(i)
        } else {
            None
        },
        None => None,
    }
}

// ---------------------------------------------------------------------------
// Object members
// ---------------------------------------------------------------------------

/// `i` is the position of the first member of `o` named `key`.
pub open spec fn first_member(o: Seq<(Seq<char>, JsonView)>, key: Seq<char>, i: int) -> bool {
    0 <= i < o.len() && o[i].0 == key && forall|j: int| 0 <= j < i ==> o[j].0 != key
}

/// The position of the first member of `o` named `key`, if any.
pub open spec fn member_index(o: Seq<(Seq<char>, JsonView)>, key: Seq<char>) -> Option<int> {
    if exists|i: int| first_member(o, key, i) {
        Some(choose|i: int| first_member(o, key, i))
    } else {
        None
    }
}

proof fn lemma_member_index(o: Seq<(Seq<char>, JsonView)>, key: Seq<char>)
    ensures
        match member_index(o, key) {
            Some(i) => first_member(o, key, i),
            None => forall|j: int| 0 <= j < o.len() ==> o[j].0 != key,
        },
        forall|i: int| first_member(o, key, i) ==> member_index(o, key) == Some(i),
{
    if exists|i: int| first_member(o, key, i) {
        let k = choose|i: int| first_member(o, key, i);
        assert forall|i: int| first_member(o, key, i) implies i == k by {
            if i < k {
                assert(o[i].0 != key);
            }
            if k < i {
                assert(o[k].0 != key);
            }
        }
    } else {
        assert forall|j: int| 0 <= j < o.len() implies o[j].0 != key by {
            if o[j].0 == key {
                assert(exists|i: int| first_member(o, key, i)) by {
                    lemma_first_exists(o, key, j);
                }
            }
        }
    }
}

proof fn lemma_first_exists(o: Seq<(Seq<char>, JsonView)>, key: Seq<char>, j: int)
    requires
        0 <= j < o.len(),
        o[j].0 == key,
    ensures
        exists|i: int| first_member(o, key, i),
    decreases j,
{
    if forall|k: int| 0 <= k < j ==> o[k].0 != key {
        assert(first_member(o, key, j));
    } else {
        let k = choose|k: int| 0 <= k < j && o[k].0 == key;
        lemma_first_exists(o, key, k);
    }
}

/// The position of the first member named `key`.
fn find_member(o: &Vec<(String, JsonValue)>, key: &String) -> (r: Option<usize>)
    ensures
        match r {
            Some(i) => i < o@.len() && o@[i as int].0@ == key@ && forall|j: int|
                0 <= j < i ==> o@[j].0@ != key@,
            None => forall|j: int| 0 <= j < o@.len() ==> o@[j].0@ != key@,
        },
{
    let mut i: usize = 0;
    while i < o.len()
        invariant
            i <= o.len(),
            forall|j: int| 0 <= j < i ==> o@[j].0@ != key@,
        decreases o.len() - i,
    {
        if o[i].0 == *key {
            return Some(i);
        }
        i = i + 1;
    }
    None
}

// ---------------------------------------------------------------------------
// Reading and writing through a pointer
// ---------------------------------------------------------------------------

/// The node that `tokens` designate in `v` (RFC 6901 evaluation): an array
/// is entered at the existing element a token names, an object at its first
/// member named by the token; anything else, or a missing node, gives `None`.
pub open spec fn resolve_spec(v: JsonView, tokens: Seq<Seq<char>>) -> Option<JsonView>
    decreases tokens.len(),
{
    if tokens.len() == 0 {
        Some(v)
    } else {
        match v {
            JsonView::Array(a) => match index_within(tokens[0], a.len()) {
                Some(i) => resolve_spec(a[i as int], tokens.drop_first()),
                None => None,
            },
            JsonView::Object(o) => match member_index(o, tokens[0]) {
                Some(i) => resolve_spec(o[i].1, tokens.drop_first()),
                None => None,
            },
            _ => None,
        }
    }
}

/// The document that holds `value` at the path `tokens` and nothing else:
/// a token `0` or `-` becomes a one-element array, any other token a
/// one-member object.
pub open spec fn expand_spec(tokens: Seq<Seq<char>>, value: JsonView) -> JsonView
    decreases tokens.len(),
{
    if tokens.len() == 0 {
        value
    } else {
        let inner = expand_spec(tokens.drop_first(), value);
        if tokens[0] == seq!['0'] || tokens[0] == seq!['-'] {
            JsonView::Array(seq![inner])
        } else {
            JsonView::Object(seq![(tokens[0], inner)])
        }
    }
}

/// `dest` with `value` written at the path `tokens`, as `jsonptr`'s `assign`
/// writes it: an existing node is replaced; a missing array element just past
/// the end, or a missing object member, is added, holding the rest of the
/// path built by `expand_spec`; a node that is neither array nor object is
/// replaced by the whole remaining path.  `None` when a token that must index
/// an array does not, or points beyond its end.
pub open spec fn assign_spec(dest: JsonView, tokens: Seq<Seq<char>>, value: JsonView) -> Option<
    JsonView,
>
    decreases tokens.len(),
{
    if tokens.len() == 0 {
        Some(value)
    } else {
        let t = tokens[0];
        let rest = tokens.drop_first();
        match dest {
            JsonView::Array(a) => match index_upto(t, a.len()) {
                None => None,
                Some(i) => if i < a.len() {
                    match assign_spec(a[i as int], rest, value) {
                        Some(e) => Some(JsonView::Array(a.update(i as int, e))),
                        None => None,
                    }
                } else {
                    Some(JsonView::Array(a.push(expand_spec(rest, value))))
                },
            },
            JsonView::Object(o) => match member_index(o, t) {
                Some(i) => match assign_spec(o[i].1, rest, value) {
                    Some(e) => Some(JsonView::Object(o.update(i, (t, e)))),
                    None => None,
                },
                None => Some(JsonView::Object(o.push((t, expand_spec(rest, value))))),
            },
            _ => Some(expand_spec(tokens, value)),
        }
    }
}

proof fn lemma_skip_step(p: Seq<Seq<char>>, k: int)
    requires
        0 <= k < p.len(),
    ensures
        p.skip(k).len() > 0,
        p.skip(k)[0] == p[k],
        p.skip(k).drop_first() =~= p.skip(k + 1),
{
}

/// The document holding `value` at the path `toks[k..]`.
fn expand(toks: &Vec<String>, k: usize, value: JsonValue) -> (r: JsonValue)
    requires
        k <= toks.len(),
    ensures
        r@ == expand_spec(toks@.map_values(|t: String| t@).skip(k as int), value@),
{
    let ghost p = toks@.map_values(|t: String| t@);
    let mut cur = value;
    let mut j: usize = toks.len();
    assert(p.skip(j as int) =~= Seq::<Seq<char>>::empty());
    while j > k
        invariant
            k <= j <= toks.len(),
            p == toks@.map_values(|t: String| t@),
            cur@ == expand_spec(p.skip(j as int), value@),
        decreases j,
    {
        proof {
            lemma_skip_step(p, j - 1);
        }
        let t = &toks[j - 1];
        let is_zero = t.unicode_len() == 1 && t.get_char(0) == '0';
        let is_next = t.unicode_len() == 1 && t.get_char(0) == '-';
        proof {
            if t@.len() == 1 {
                if t@[0] == '0' {
                    assert(t@ =~= seq!['0']);
                }
                if t@[0] == '-' {
                    assert(t@ =~= seq!['-']);
                }
            }
        }
        let ghost inner = cur@;
        if is_zero || is_next {
            cur = JsonValue::Array(vec![cur]);
            assert(cur@->Array_0 =~= seq![inner]);
        } else {
            cur = JsonValue::Object(vec![(t.clone(), cur)]);
            assert(cur@->Object_0 =~= seq![(p[j - 1], inner)]);
        }
        j = j - 1;
    }
    cur
}

impl JsonPointer {
    /// The node this pointer designates in `value`, if there is one.
    pub fn resolve<'a>(&self, value: &'a JsonValue) -> (r: Option<&'a JsonValue>)
        ensures
            match r {
                Some(x) => resolve_spec(value@, self@) == Some(x@),
                None => resolve_spec(value@, self@) is None,
            },
    {
        let mut cur = value;
        let mut k: usize = 0;
        assert(self@.skip(0) =~= self@);
        while k < self.tokens.len()
            invariant
                k <= self.tokens.len(),
                resolve_spec(value@, self@) == resolve_spec(cur@, self@.skip(k as int)),
            decreases self.tokens.len() - k,
        {
            proof {
                lemma_skip_step(self@, k as int);
            }
            let tok = &self.tokens[k];
            match cur {
                JsonValue::Array(a) => {
                    match index_within_of(tok.as_str(), a.len()) {
                        Some(i) => {
                            cur = &a[i];
                        },
                        None => {
                            return None;
                        },
                    }
                },
                JsonValue::Object(o) => {
                    match find_member(o, tok) {
                        Some(i) => {
                            proof {
                                assert(first_member(cur@->Object_0, tok@, i as int));
                                lemma_member_index(cur@->Object_0, tok@);
                            }
                            cur = &o[i].1;
                        },
                        None => {
                            proof {
                                lemma_member_index(cur@->Object_0, tok@);
                                if member_index(cur@->Object_0, tok@) is Some {
                                    let m = member_index(cur@->Object_0, tok@)->0;
                                    assert(o@[m].0@ != tok@);
                                }
                            }
                            return None;
                        },
                    }
                },
                _ => {
                    return None;
                },
            }
            k = k + 1;
        }
        assert(self@.skip(k as int) =~= Seq::<Seq<char>>::empty());
        Some(cur)
    }

    /// Writes `src` at the node this pointer designates in `dest`, creating the
    /// missing part of the path.  On an error `dest` is left as it was.
    pub fn assign(&self, dest: &mut JsonValue, src: JsonValue) -> (r: Result<(), PointerError>)
        ensures
            match assign_spec(old(dest)@, self@, src@) {
                Some(v) => r is Ok && final(dest)@ == v,
                None => r == Err::<(), PointerError>(PointerError::BadIndex) && final(dest)@ == old(
                    dest,
                )@,
            },
    {
        let mut d = JsonValue::Null;
        core::mem::swap(&mut d, dest);
        assert(self@.skip(0) =~= self@);
        match assign_from(d, &self.tokens, 0, src) {
            Ok(v) => {
                *dest = v;
                Ok(())
            },
            Err(v) => {
                *dest = v;
                Err(PointerError::BadIndex)
            },
        }
    }
}

/// `dest` with `value` written at the path `toks[k..]`; `Err` gives `dest` back.
fn assign_from(dest: JsonValue, toks: &Vec<String>, k: usize, value: JsonValue) -> (r: Result<
    JsonValue,
    JsonValue,
>)
    requires
        k <= toks.len(),
    ensures
        match assign_spec(dest@, toks@.map_values(|t: String| t@).skip(k as int), value@) {
            Some(v) => r matches Ok(x) && x@ == v,
            None => r matches Err(x) && x@ == dest@,
        },
    decreases toks.len() - k,
{
    let ghost p = toks@.map_values(|t: String| t@);
    if k == toks.len() {
        return Ok(value);
    }
    proof {
        lemma_skip_step(p, k as int);
    }
    let tok = &toks[k];
    let ghost old_dest = dest@;
    match dest {
        JsonValue::Array(mut a) => {
            match index_upto_of(tok.as_str(), a.len()) {
                None => Err(JsonValue::Array(a)),
                Some(i) => {
                    if i < a.len() {
                        let ghost a0 = a@;
                        let elem = a.remove(i);
                        match assign_from(elem, toks, k + 1, value) {
                            Ok(e) => {
                                a.insert(i, e);
                                let r = JsonValue::Array(a);
                                proof {
                                    assert forall|j: int| 0 <= j < a0.len() implies r@->Array_0[j]
                                        == old_dest->Array_0.update(i as int, e@)[j] by {
                                        if j != i {
                                            assert(a@[j] == a0[j]);
                                        }
                                    }
                                    assert(r@->Array_0 =~= old_dest->Array_0.update(i as int, e@));
                                }
                                Ok(r)
                            },
                            Err(e) => {
                                a.insert(i, e);
                                let r = JsonValue::Array(a);
                                proof {
                                    assert forall|j: int| 0 <= j < a0.len() implies r@->Array_0[j]
                                        == old_dest->Array_0[j] by {
                                        if j != i {
                                            assert(a@[j] == a0[j]);
                                        }
                                    }
                                    assert(r@->Array_0 =~= old_dest->Array_0);
                                }
                                Err(r)
                            },
                        }
                    } else {
                        let ghost a0 = a@;
                        let e = expand(toks, k + 1, value);
                        a.push(e);
                        let r = JsonValue::Array(a);
                        proof {
                            assert forall|j: int| 0 <= j < a0.len() implies r@->Array_0[j]
                                == old_dest->Array_0[j] by {
                                assert(a@[j] == a0[j]);
                            }
                            assert(r@->Array_0 =~= old_dest->Array_0.push(e@));
                        }
                        Ok(r)
                    }
                },
            }
        },
        JsonValue::Object(mut o) => {
            let ghost om = old_dest->Object_0;
            match find_member(&o, tok) {
                Some(i) => {
                    proof {
                        assert(first_member(om, tok@, i as int));
                        lemma_member_index(om, tok@);
                    }
                    let ghost o0 = o@;
                    let (key, elem) = o.remove(i);
                    match assign_from(elem, toks, k + 1, value) {
                        Ok(e) => {
                            o.insert(i, (key, e));
                            let r = JsonValue::Object(o);
                            proof {
                                assert forall|j: int| 0 <= j < o0.len() implies r@->Object_0[j]
                                    == om.update(i as int, (tok@, e@))[j] by {
                                    if j != i {
                                        assert(o@[j] == o0[j]);
                                    }
                                }
                                assert(r@->Object_0 =~= om.update(i as int, (tok@, e@)));
                            }
                            Ok(r)
                        },
                        Err(e) => {
                            o.insert(i, (key, e));
                            let r = JsonValue::Object(o);
                            proof {
                                assert forall|j: int| 0 <= j < o0.len() implies r@->Object_0[j]
                                    == om[j] by {
                                    if j != i {
                                        assert(o@[j] == o0[j]);
                                    }
                                }
                                assert(r@->Object_0 =~= om);
                            }
                            Err(r)
                        },
                    }
                },
                None => {
                    proof {
                        lemma_member_index(om, tok@);
                        if member_index(om, tok@) is Some {
                            let m = member_index(om, tok@)->0;
                            assert(o@[m].0@ != tok@);
                        }
                    }
                    let ghost o0 = o@;
                    let e = expand(toks, k + 1, value);
                    o.push((tok.clone(), e));
                    let r = JsonValue::Object(o);
                    proof {
                        assert forall|j: int| 0 <= j < o0.len() implies r@->Object_0[j] == om[j] by {
                            assert(o@[j] == o0[j]);
                        }
                        assert(r@->Object_0 =~= om.push((tok@, e@)));
                    }
                    Ok(r)
                },
            }
        },
        _ => Ok(expand(toks, k, value)),
    }
}

// ---------------------------------------------------------------------------
// Laws
// ---------------------------------------------------------------------------

/// Reading through the empty pointer gives the whole document.
pub proof fn law_resolve_root(v: JsonView)
    ensures
        resolve_spec(v, Seq::empty()) == Some(v),
{
}

/// Writing through the empty pointer replaces the whole document.
pub proof fn law_assign_root(dest: JsonView, value: JsonView)
    ensures
        assign_spec(dest, Seq::empty(), value) == Some(value),
{
}

proof fn lemma_zero_index()
    ensures
        numeric_index(seq!['0']) == Some(0nat),
        index_within(seq!['0'], 1) == Some(0nat),
{
    let z = seq!['0'];
    assert(z.drop_last() =~= Seq::<char>::empty());
    assert(digits_value(z.drop_last()) == 0);
    assert(z.last() == '0');
    assert(digits_value(z) == 0);
    assert(forall|i: int| 0 <= i < z.len() ==> is_digit(#[trigger] z[i]));
}

proof fn lemma_resolve_expand(tokens: Seq<Seq<char>>, value: JsonView)
    requires
        forall|i: int| 0 <= i < tokens.len() ==> !is_next_token(#[trigger] tokens[i]),
    ensures
        resolve_spec(expand_spec(tokens, value), tokens) == Some(value),
    decreases tokens.len(),
{
    if tokens.len() > 0 {
        let rest = tokens.drop_first();
        assert forall|i: int| 0 <= i < rest.len() implies !is_next_token(#[trigger] rest[i]) by {
            assert(rest[i] == tokens[i + 1]);
        }
        lemma_resolve_expand(rest, value);
        assert(!is_next_token(tokens[0]));
        if tokens[0] == seq!['0'] {
            lemma_zero_index();
        } else {
            let o = seq![(tokens[0], expand_spec(rest, value))];
            assert(first_member(o, tokens[0], 0));
            lemma_member_index(o, tokens[0]);
        }
    }
}

/// Reading back a write: once a value has been written through a pointer
/// none of whose tokens is `-`, reading through the same pointer gives that
/// value.
pub proof fn law_read_after_write(dest: JsonView, tokens: Seq<Seq<char>>, value: JsonView)
    requires
        assign_spec(dest, tokens, value) is Some,
        forall|i: int| 0 <= i < tokens.len() ==> !is_next_token(#[trigger] tokens[i]),
    ensures
        resolve_spec(assign_spec(dest, tokens, value)->0, tokens) == Some(value),
    decreases tokens.len(),
{
    if tokens.len() > 0 {
        let t = tokens[0];
        let rest = tokens.drop_first();
        assert forall|i: int| 0 <= i < rest.len() implies !is_next_token(#[trigger] rest[i]) by {
            assert(rest[i] == tokens[i + 1]);
        }
        assert(!is_next_token(t));
        match dest {
            JsonView::Array(a) => {
                let i = index_upto(t, a.len())->0;
                if i < a.len() {
                    law_read_after_write(a[i as int], rest, value);
                } else {
                    lemma_resolve_expand(rest, value);
                }
            },
            JsonView::Object(o) => {
                lemma_member_index(o, t);
                match member_index(o, t) {
                    Some(i) => {
                        law_read_after_write(o[i].1, rest, value);
                        let e = assign_spec(o[i].1, rest, value)->0;
                        let o2 = o.update(i, (t, e));
                        assert(first_member(o2, t, i));
                        lemma_member_index(o2, t);
                    },
                    None => {
                        lemma_resolve_expand(rest, value);
                        let o2 = o.push((t, expand_spec(rest, value)));
                        assert(first_member(o2, t, o.len() as int));
                        lemma_member_index(o2, t);
                    },
                }
            },
            _ => {
                lemma_resolve_expand(tokens, value);
            },
        }
    }
}

} // verus!
