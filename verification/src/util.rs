//! Small verified helpers on strings and characters shared by the passes.
use vstd::prelude::*;

verus! {

/// The bytes of a UTF-8 encoded string, as a sequence.
pub open spec fn utf8_bytes(s: Seq<char>) -> Seq<u8> {
    vstd::utf8::encode_utf8(s)
}

/// Appends one character to a string (`String::push`).
#[verifier::external_body]
pub(crate) fn push_char(s: &mut String, c: char)
    ensures
        final(s)@ == old(s)@.push(c),
{
    s.push(c);
}

/// Appends a string slice to a string.
pub(crate) fn push_str(s: &mut String, t: &str)
    ensures
        final(s)@ == old(s)@ + t@,
{
    s.append(t);
}

/// Builds a string from a sequence of characters, one `push` at a time.
pub fn string_from_chars(v: &[char]) -> (r: String)
    ensures
        r@ == v@,
{
    let mut s = String::new();
    let mut i: usize = 0;
    while i < v.len()
        invariant
            i <= v.len(),
            s@ == v@.subrange(0, i as int),
        decreases v.len() - i,
    {
        push_char(&mut s, v[i]);
        i = i + 1;
        proof {
            assert(v@.subrange(0, i as int) == v@.subrange(0, i - 1).push(v@[i - 1]));
        }
    }
    proof {
        assert(v@.subrange(0, v@.len() as int) == v@);
    }
    s
}

/// The characters of a string slice, in order.
pub(crate) fn chars_of(s: &str) -> (r: Vec<char>)
    ensures
        r@ == s@,
{
    let mut v: Vec<char> = Vec::new();
    proof {
        vstd::string::axiom_spec_iter(s);
    }
    for c in it: s.chars()
        invariant
            v@ == it.seq().take(it.index() as int),
    {
        v.push(c);
    }
    v
}

/// A string slice copied into an owned string.
pub fn owned(s: &str) -> (r: String)
    ensures
        r@ == s@,
{
    s.to_owned()
}

/// Character-wise equality of two string slices.
pub fn str_eq(a: &str, b: &str) -> (r: bool)
    ensures
        r == (a@ == b@),
{
    let x = owned(a);
    let y = owned(b);
    x == y
}


/// The first value stored under `k`, scanning entries in order.
pub open spec fn assoc_get<V>(entries: Seq<(String, V)>, k: Seq<char>) -> Option<V>
    decreases entries.len(),
{
    if entries.len() == 0 {
        None
    } else if entries[0].0@ == k {
        Some(entries[0].1)
    } else {
        assoc_get(entries.drop_first(), k)
    }
}

/// The index of the first entry stored under `k`, if any.
pub open spec fn assoc_index<V>(entries: Seq<(String, V)>, k: Seq<char>) -> Option<int>
    decreases entries.len(),
{
    if entries.len() == 0 {
        None
    } else if entries[0].0@ == k {
        Some(0)
    } else {
        match assoc_index(entries.drop_first(), k) {
            Some(i) => Some(i + 1),
            None => None,
        }
    }
}

pub proof fn lemma_assoc_index<V>(entries: Seq<(String, V)>, k: Seq<char>)
    ensures
        match assoc_index(entries, k) {
            Some(i) => 0 <= i < entries.len() && entries[i].0@ == k
                && (forall|j: int| 0 <= j < i ==> entries[j].0@ != k)
                && assoc_get(entries, k) == Some(entries[i].1),
            None => (forall|j: int| 0 <= j < entries.len() ==> entries[j].0@ != k)
                && assoc_get(entries, k) is None,
        },
    decreases entries.len(),
{
    if entries.len() > 0 {
        lemma_assoc_index(entries.drop_first(), k);
        if entries[0].0@ != k {
            match assoc_index(entries.drop_first(), k) {
                Some(i) => {
                    assert forall|j: int| 0 <= j < i + 1 implies entries[j].0@ != k by {
                        if j > 0 {
                            assert(entries[j] == entries.drop_first()[j - 1]);
                        }
                    }
                },
                None => {
                    assert forall|j: int| 0 <= j < entries.len() implies entries[j].0@ != k by {
                        if j > 0 {
                            assert(entries[j] == entries.drop_first()[j - 1]);
                        }
                    }
                },
            }
        }
    }
}

/// Looking up after pushing a fresh entry at the end.
pub proof fn lemma_assoc_push<V>(entries: Seq<(String, V)>, e: (String, V), k: Seq<char>)
    ensures
        assoc_get(entries.push(e), k) == (match assoc_get(entries, k) {
            Some(v) => Some(v),
            None => if e.0@ == k { Some(e.1) } else { None },
        }),
    decreases entries.len(),
{
    if entries.len() == 0 {
        assert(entries.push(e)[0] == e);
        assert(entries.push(e).drop_first() =~= Seq::<(String, V)>::empty());
        assert(assoc_get(Seq::<(String, V)>::empty(), k) is None);
    } else {
        assert(entries.push(e)[0] == entries[0]);
        assert(entries.push(e).drop_first() =~= entries.drop_first().push(e));
        lemma_assoc_push(entries.drop_first(), e, k);
    }
}

/// Looking up after replacing the entry at index `i`.
pub proof fn lemma_assoc_update<V>(entries: Seq<(String, V)>, i: int, e: (String, V), k: Seq<char>)
    requires
        0 <= i < entries.len(),
        entries[i].0@ == e.0@,
        forall|j: int| 0 <= j < i ==> entries[j].0@ != e.0@,
    ensures
        assoc_get(entries.update(i, e), k) == (if k == e.0@ { Some(e.1) } else { assoc_get(entries, k) }),
    decreases entries.len(),
{
    if i == 0 {
        assert(entries.update(i, e).drop_first() =~= entries.drop_first());
    } else {
        assert(entries.update(i, e).drop_first() =~= entries.drop_first().update(i - 1, e));
        lemma_assoc_update(entries.drop_first(), i - 1, e, k);
    }
}

/// A table from names to values.  Each name is stored once; lookups
/// return the value most recently inserted under the name.
#[derive(Debug, Clone, PartialEq)]
pub struct NameMap<V> {
    pub entries: Vec<(String, V)>,
}

impl<V> View for NameMap<V> {
    type V = Map<Seq<char>, V>;

    open spec fn view(&self) -> Map<Seq<char>, V> {
        Map::new(|k: Seq<char>| assoc_get(self.entries@, k) is Some, |k: Seq<char>| assoc_get(self.entries@, k)->0)
    }
}

impl<V> NameMap<V> {
    pub open spec fn spec_get(&self, k: Seq<char>) -> Option<V> {
        assoc_get(self.entries@, k)
    }

    pub fn new() -> (r: Self)
        ensures
            r.entries@.len() == 0,
            forall|k: Seq<char>| r.spec_get(k) is None,
            r@ == Map::<Seq<char>, V>::empty(),
    {
        let r = NameMap { entries: Vec::new() };
        assert(r@ =~= Map::<Seq<char>, V>::empty());
        r
    }

    pub fn index_of(&self, k: &str) -> (r: Option<usize>)
        ensures
            r is Some == assoc_index(self.entries@, k@) is Some,
            r matches Some(i) ==> assoc_index(self.entries@, k@) == Some(i as int),
    {
        proof {
            lemma_assoc_index(self.entries@, k@);
        }
        let mut i: usize = 0;
        while i < self.entries.len()
            invariant
                i <= self.entries@.len(),
                forall|j: int| 0 <= j < i ==> self.entries@[j].0@ != k@,
                match assoc_index(self.entries@, k@) {
                    Some(x) => 0 <= x < self.entries@.len() && self.entries@[x].0@ == k@
                        && (forall|j: int| 0 <= j < x ==> self.entries@[j].0@ != k@),
                    None => forall|j: int| 0 <= j < self.entries@.len() ==> self.entries@[j].0@ != k@,
                },
            decreases self.entries.len() - i,
        {
            if str_eq(self.entries[i].0.as_str(), k) {
                return Some(i);
            }
            i = i + 1;
        }
        None
    }

    pub fn get(&self, k: &str) -> (r: Option<&V>)
        ensures
            r is Some == self.spec_get(k@) is Some,
            r matches Some(x) ==> self.spec_get(k@) == Some(*x),
    {
        proof {
            lemma_assoc_index(self.entries@, k@);
        }
        match self.index_of(k) {
            Some(i) => {
                assert(self.spec_get(k@) == Some(self.entries@[i as int].1));
                Some(&self.entries[i].1)
            },
            None => None,
        }
    }

    pub fn contains_key(&self, k: &str) -> (r: bool)
        ensures
            r == self.spec_get(k@) is Some,
    {
        proof {
            lemma_assoc_index(self.entries@, k@);
        }
        self.index_of(k).is_some()
    }

    pub fn insert(&mut self, k: String, v: V)
        ensures
            forall|q: Seq<char>| #[trigger] final(self).spec_get(q) == (if q == k@ { Some(v) } else { old(self).spec_get(q) }),
            final(self)@ == old(self)@.insert(k@, v),
            final(self).entries@ == (match assoc_index(old(self).entries@, k@) {
                Some(i) => old(self).entries@.update(i, (k, v)),
                None => old(self).entries@.push((k, v)),
            }),
    {
        proof {
            lemma_assoc_index(self.entries@, k@);
        }
        let ghost kv = k@;
        let ghost oldm = self@;
        let ghost olde = self.entries@;
        match self.index_of(k.as_str()) {
            Some(i) => {
                let ghost e = (k, v);
                proof {
                    assert(self.entries@[i as int].0@ == kv);
                    assert(e.0@ == kv);
                    assert forall|q: Seq<char>| assoc_get(self.entries@.update(i as int, e), q) == (if q == kv { Some(v) } else { assoc_get(self.entries@, q) }) by {
                        lemma_assoc_update(self.entries@, i as int, e, q);
                    }
                }
                self.entries.set(i, (k, v));
            },
            None => {
                let ghost e = (k, v);
                proof {
                    assert forall|q: Seq<char>| assoc_get(self.entries@.push(e), q) == (if q == kv { Some(v) } else { assoc_get(self.entries@, q) }) by {
                        lemma_assoc_push(self.entries@, e, q);
                    }
                }
                self.entries.push((k, v));
            },
        }
        proof {
            assert(self@ =~= oldm.insert(kv, v));
        }
    }
}

/// The character of a decimal digit.
pub open spec fn digit_char(d: int) -> char {
    (d + 0x30) as char
}

/// The decimal numeral of a natural number, as `{}` writes it.
pub open spec fn decimal(n: nat) -> Seq<char>
    decreases n,
{
    if n < 10 {
        seq![digit_char(n as int)]
    } else {
        decimal(n / 10).push(digit_char((n % 10) as int))
    }
}

/// The decimal numeral of an integer, with a leading `-` when negative.
pub open spec fn int_text(n: int) -> Seq<char> {
    if n < 0 {
        seq!['-'] + decimal((-n) as nat)
    } else {
        decimal(n as nat)
    }
}

/// Appends the decimal numeral of `n`.
pub fn push_decimal(s: &mut String, n: u64)
    ensures
        final(s)@ == old(s)@ + decimal(n as nat),
    decreases n,
{
    if n >= 10 {
        push_decimal(s, n / 10);
    }
    let d = (n % 10) as u8;
    push_char(s, (d + 0x30u8) as char);
    assert(final(s)@ =~= old(s)@ + decimal(n as nat)) by {
        if n >= 10 {
            assert(decimal(n as nat) == decimal((n / 10) as nat).push(digit_char((n % 10) as int)));
        }
    }
}

/// The decimal numeral of a `usize`.
pub fn usize_text(n: usize) -> (r: String)
    ensures
        r@ == decimal(n as nat),
{
    let mut s = String::new();
    push_decimal(&mut s, n as u64);
    assert(s@ =~= decimal(n as nat));
    s
}

/// The decimal numeral of an `i64`.
pub fn i64_text(n: i64) -> (r: String)
    ensures
        r@ == int_text(n as int),
{
    let mut s = String::new();
    if n < 0 {
        push_char(&mut s, '-');
        let m: u64 = if n == i64::MIN { 0x8000_0000_0000_0000u64 } else { (-n) as u64 };
        push_decimal(&mut s, m);
    } else {
        push_decimal(&mut s, n as u64);
        assert(s@ =~= decimal(n as nat));
    }
    s
}

/// What `{:?}` writes for a string: quoted, with escapes.
pub uninterp spec fn debug_of_str(s: Seq<char>) -> Seq<char>;

/// `<str as Debug>::fmt`: the quoted, escaped form of a string; the result
/// is named, not spelled out.
#[verifier::external_body]
pub(crate) fn str_debug(s: &str) -> (r: String)
    ensures
        r@ == debug_of_str(s@),
{
    format!("{:?}", s)
}

} // verus!
