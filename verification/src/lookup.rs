//! Keyed lookup in ordered sequences: the first entry whose key matches.
use vstd::prelude::*;

verus! {

/// A value that can be copied in verified code with a known result.
pub trait Dup: Sized {
    fn dup(&self) -> (r: Self)
        ensures
            r == *self,
    ;
}

/// A value identified by a textual key (an identifier, or an entry keyed by one).
pub trait Keyed {
    spec fn key(&self) -> Seq<char>;

    fn key_string(&self) -> (r: &String)
        ensures
            r@ == self.key(),
    ;
}

impl<K: Keyed, V> Keyed for (K, V) {
    open spec fn key(&self) -> Seq<char> {
        self.0.key()
    }

    fn key_string(&self) -> (r: &String) {
        self.0.key_string()
    }
}

impl<A: Dup, B: Dup> Dup for (A, B) {
    fn dup(&self) -> (r: Self) {
        (self.0.dup(), self.1.dup())
    }
}

impl<A: Dup> Dup for Option<A> {
    fn dup(&self) -> (r: Self) {
        match self {
            Some(a) => Some(a.dup()),
            None => None,
        }
    }
}

impl Dup for bool {
    fn dup(&self) -> (r: Self) {
        *self
    }
}

/// `j` is the first position of `s` whose key is `k`.
pub open spec fn is_first<T: Keyed>(s: Seq<T>, k: Seq<char>, j: int) -> bool {
    &&& 0 <= j < s.len()
    &&& s[j].key() == k
    &&& forall|l: int| 0 <= l < j ==> s[l].key() != k
}

/// The first position of `s` whose key is `k`, if any.
pub open spec fn find_index<T: Keyed>(s: Seq<T>, k: Seq<char>) -> Option<int> {
    if exists|j: int| is_first(s, k, j) {
        Some(choose|j: int| is_first(s, k, j))
    } else {
        None
    }
}

/// Some entry of `s` has key `k`.
pub open spec fn has_key<T: Keyed>(s: Seq<T>, k: Seq<char>) -> bool {
    exists|j: int| 0 <= j < s.len() && s[j].key() == k
}

/// The value of the first entry with key `k`.
pub open spec fn get<K: Keyed, V>(s: Seq<(K, V)>, k: Seq<char>) -> Option<V> {
    match find_index(s, k) {
        Some(i) => Some(s[i].1),
        None => None,
    }
}

/// Sets the value of the first entry with key `k`, or appends a new entry.
pub open spec fn put<K: Keyed, V>(s: Seq<(K, V)>, k: K, v: V) -> Seq<(K, V)> {
    match find_index(s, k.key()) {
        Some(i) => s.update(i, (s[i].0, v)),
        None => s.push((k, v)),
    }
}

/// Appends `k` unless an equal key is already present.
pub open spec fn with_key<K: Keyed>(s: Seq<K>, k: K) -> Seq<K> {
    if has_key(s, k.key()) {
        s
    } else {
        s.push(k)
    }
}

/// The two key lists hold the same keys.
pub open spec fn same_keys<A: Keyed, B: Keyed>(a: Seq<A>, b: Seq<B>) -> bool {
    &&& forall|i: int| 0 <= i < a.len() ==> has_key(b, #[trigger] a[i].key())
    &&& forall|i: int| 0 <= i < b.len() ==> has_key(a, #[trigger] b[i].key())
}

pub open spec fn opt_index(r: Option<usize>) -> Option<int> {
    match r {
        Some(i) => Some(i as int),
        None => None,
    }
}

pub proof fn lemma_first<T: Keyed>(s: Seq<T>, k: Seq<char>, j: int)
    requires
        is_first(s, k, j),
    ensures
        find_index(s, k) == Some(j),
{
    let c = choose|i: int| is_first(s, k, i);
    assert(is_first(s, k, c));
    if c < j {
        assert(s[c].key() != k);
    } else if j < c {
        assert(s[j].key() != k);
    }
}

pub proof fn lemma_found<T: Keyed>(s: Seq<T>, k: Seq<char>)
    requires
        find_index(s, k) is Some,
    ensures
        is_first(s, k, find_index(s, k)->0),
        has_key(s, k),
{
    let j = find_index(s, k)->0;
    assert(is_first(s, k, j));
}

pub proof fn lemma_absent<T: Keyed>(s: Seq<T>, k: Seq<char>)
    requires
        forall|l: int| 0 <= l < s.len() ==> s[l].key() != k,
    ensures
        find_index(s, k) is None,
        !has_key(s, k),
{
    if exists|j: int| is_first(s, k, j) {
        let j = choose|j: int| is_first(s, k, j);
        assert(s[j].key() != k);
    }
}

pub proof fn lemma_has_key<T: Keyed>(s: Seq<T>, k: Seq<char>)
    ensures
        has_key(s, k) <==> find_index(s, k) is Some,
{
    if has_key(s, k) {
        if find_index(s, k) is None {
            let w = choose|j: int| 0 <= j < s.len() && s[j].key() == k;
            lemma_min_match(s, k, w);
        }
    } else {
        if find_index(s, k) is Some {
            lemma_found(s, k);
        }
    }
}

proof fn lemma_min_match<T: Keyed>(s: Seq<T>, k: Seq<char>, w: int)
    requires
        0 <= w < s.len(),
        s[w].key() == k,
    ensures
        exists|j: int| is_first(s, k, j),
    decreases w,
{
    if forall|l: int| 0 <= l < w ==> s[l].key() != k {
        assert(is_first(s, k, w));
    } else {
        let l = choose|l: int| 0 <= l < w && s[l].key() == k;
        lemma_min_match(s, k, l);
    }
}

/// Two sequences with the same keys position by position find the same first position.
pub proof fn lemma_same_keys_find<A: Keyed, B: Keyed>(s: Seq<A>, t: Seq<B>, k: Seq<char>)
    requires
        s.len() == t.len(),
        forall|i: int|
            #![trigger s[i].key()]
            #![trigger t[i].key()]
            0 <= i < s.len() ==> s[i].key() == t[i].key(),
    ensures
        find_index(s, k) == find_index(t, k),
        has_key(s, k) == has_key(t, k),
{
    if exists|j: int| is_first(s, k, j) {
        let j = choose|j: int| is_first(s, k, j);
        assert(is_first(t, k, j));
        lemma_first(s, k, j);
        lemma_first(t, k, j);
    } else if exists|j: int| is_first(t, k, j) {
        let j = choose|j: int| is_first(t, k, j);
        assert(is_first(s, k, j));
    }
    lemma_has_key(s, k);
    lemma_has_key(t, k);
}

impl Keyed for String {
    open spec fn key(&self) -> Seq<char> {
        self@
    }

    fn key_string(&self) -> (r: &String) {
        self
    }
}

/// Whether one of the first `n` entries of `v` has key `k`.
pub fn key_in_prefix<T: Keyed>(v: &Vec<T>, n: usize, k: &String) -> (r: bool)
    requires
        n <= v@.len(),
    ensures
        r == has_key(v@.take(n as int), k@),
{
    let mut i: usize = 0;
    while i < n
        invariant
            i <= n <= v@.len(),
            forall|l: int| 0 <= l < i ==> v@[l].key() != k@,
        decreases n - i,
    {
        let key: &String = v[i].key_string();
        if key.eq(k) {
            assert(v@.take(n as int)[i as int].key() == k@);
            return true;
        }
        i = i + 1;
    }
    assert forall|l: int| 0 <= l < n implies v@.take(n as int)[l].key() != k@ by {}
    false
}

/// The position of the first entry of `v` whose key is `k`.
pub fn find<T: Keyed>(v: &Vec<T>, k: &String) -> (r: Option<usize>)
    ensures
        opt_index(r) == find_index(v@, k@),
{
    let mut i: usize = 0;
    while i < v.len()
        invariant
            i <= v@.len(),
            forall|l: int| 0 <= l < i ==> v@[l].key() != k@,
        decreases v@.len() - i,
    {
        let key: &String = v[i].key_string();
        if key.eq(k) {
            proof {
                lemma_first(v@, k@, i as int);
            }
            return Some(i);
        }
        i = i + 1;
    }
    proof {
        lemma_absent(v@, k@);
    }
    None
}

/// Whether some entry of `v` has key `k`.
pub fn contains<T: Keyed>(v: &Vec<T>, k: &String) -> (r: bool)
    ensures
        r == has_key(v@, k@),
{
    proof {
        lemma_has_key(v@, k@);
    }
    find(v, k).is_some()
}

/// Sets the value of the first entry with key `k`, or appends a new entry.
pub fn put_entry<K: Keyed, V>(v: &mut Vec<(K, V)>, k: K, val: V)
    ensures
        final(v)@ == put(old(v)@, k, val),
{
    match find(v, k.key_string()) {
        Some(i) => {
            let (old_key, _) = v.remove(i);
            v.insert(i, (old_key, val));
            assert(final(v)@ =~= old(v)@.update(i as int, (old(v)@[i as int].0, val)));
        },
        None => {
            v.push((k, val));
        },
    }
}

/// Appends `k` unless an equal key is present; tells whether it was appended.
pub fn add_key<K: Keyed>(v: &mut Vec<K>, k: K) -> (r: bool)
    ensures
        final(v)@ == with_key(old(v)@, k),
        r == !has_key(old(v)@, k.key()),
{
    if contains(v, k.key_string()) {
        false
    } else {
        v.push(k);
        true
    }
}

/// Whether the two key lists hold the same keys.
pub fn same_key_lists<A: Keyed, B: Keyed>(a: &Vec<A>, b: &Vec<B>) -> (r: bool)
    ensures
        r == same_keys(a@, b@),
{
    let mut i: usize = 0;
    while i < a.len()
        invariant
            i <= a@.len(),
            forall|l: int| 0 <= l < i ==> has_key(b@, #[trigger] a@[l].key()),
        decreases a@.len() - i,
    {
        if !contains(b, a[i].key_string()) {
            return false;
        }
        i = i + 1;
    }
    let mut j: usize = 0;
    while j < b.len()
        invariant
            j <= b@.len(),
            forall|l: int| 0 <= l < a@.len() ==> has_key(b@, #[trigger] a@[l].key()),
            forall|l: int| 0 <= l < j ==> has_key(a@, #[trigger] b@[l].key()),
        decreases b@.len() - j,
    {
        if !contains(a, b[j].key_string()) {
            return false;
        }
        j = j + 1;
    }
    true
}

/// A copy of `v` element by element.
pub fn dup_vec<T: Dup>(v: &Vec<T>) -> (r: Vec<T>)
    ensures
        r@ == v@,
{
    let mut r: Vec<T> = Vec::new();
    let mut i: usize = 0;
    while i < v.len()
        invariant
            i <= v@.len(),
            r@ == v@.take(i as int),
        decreases v@.len() - i,
    {
        r.push(v[i].dup());
        proof {
            assert(v@.take(i as int).push(v@[i as int]) =~= v@.take(i + 1));
        }
        i = i + 1;
    }
    assert(v@.take(v@.len() as int) =~= v@);
    r
}

} // verus!
