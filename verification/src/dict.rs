use vstd::prelude::*;
use crate::opt::{Opt, SORT_KEYS};
use crate::exc::SerializeError;
use crate::datetime::{Date, Time, DateTime, TzInfo, int_text, date_text, time_text, spec_datetime, itoa_format};

verus! {

// The order of dict keys when they are sorted: their UTF-8 bytes compared
// lexicographically, as `str` orders them.

/// `a` comes before `b`: at the first byte where they differ, `a`'s is
/// smaller, or `a` is a proper prefix of `b`.
pub open spec fn lex_lt(a: Seq<u8>, b: Seq<u8>) -> bool
    decreases a.len(),
{
    if a.len() == 0 {
        b.len() > 0
    } else if b.len() == 0 {
        false
    } else if a[0] != b[0] {
        a[0] < b[0]
    } else {
        lex_lt(a.drop_first(), b.drop_first())
    }
}

/// `a` comes no later than `b`.
pub open spec fn lex_le(a: Seq<u8>, b: Seq<u8>) -> bool {
    !lex_lt(b, a)
}

pub proof fn lemma_lex_irreflexive(a: Seq<u8>)
    ensures
        !lex_lt(a, a),
    decreases a.len(),
{
    if a.len() > 0 {
        lemma_lex_irreflexive(a.drop_first());
    }
}

pub proof fn lemma_lex_transitive(a: Seq<u8>, b: Seq<u8>, c: Seq<u8>)
    requires
        lex_lt(a, b),
        lex_lt(b, c),
    ensures
        lex_lt(a, c),
    decreases a.len(),
{
    if a.len() > 0 && b.len() > 0 && c.len() > 0 && a[0] == b[0] && b[0] == c[0] {
        lemma_lex_transitive(a.drop_first(), b.drop_first(), c.drop_first());
    }
}

pub proof fn lemma_lex_total(a: Seq<u8>, b: Seq<u8>)
    ensures
        lex_lt(a, b) || lex_lt(b, a) || a == b,
    decreases a.len(),
{
    if a.len() > 0 && b.len() > 0 && a[0] == b[0] {
        lemma_lex_total(a.drop_first(), b.drop_first());
        if a.drop_first() == b.drop_first() {
            assert(a =~= seq![a[0]] + a.drop_first());
            assert(b =~= seq![b[0]] + b.drop_first());
        }
    } else if a.len() == 0 && b.len() == 0 {
        assert(a =~= b);
    }
}

/// No later-than is transitive.
pub proof fn lemma_lex_le_transitive(a: Seq<u8>, b: Seq<u8>, c: Seq<u8>)
    requires
        lex_le(a, b),
        lex_le(b, c),
    ensures
        lex_le(a, c),
{
    if lex_lt(c, a) {
        lemma_lex_total(c, b);
        if lex_lt(b, c) {
            lemma_lex_transitive(b, c, a);
        }
    }
}

/// Coming before is asymmetric.
pub proof fn lemma_lex_asymmetric(a: Seq<u8>, b: Seq<u8>)
    requires
        lex_lt(a, b),
    ensures
        lex_le(a, b),
{
    if lex_lt(b, a) {
        lemma_lex_transitive(a, b, a);
        lemma_lex_irreflexive(a);
    }
}

/// Whether the bytes `a` come before the bytes `b`.
pub fn key_less(a: &[u8], b: &[u8]) -> (r: bool)
    ensures
        r == lex_lt(a@, b@),
{
    let mut i: usize = 0;
    assert(a@.subrange(0, a@.len() as int) =~= a@);
    assert(b@.subrange(0, b@.len() as int) =~= b@);
    while i < a.len() && i < b.len()
        invariant
            i <= a.len(),
            i <= b.len(),
            lex_lt(a@, b@) == lex_lt(a@.subrange(i as int, a@.len() as int), b@.subrange(i as int, b@.len() as int)),
        decreases a.len() - i,
    {
        let ghost sa = a@.subrange(i as int, a@.len() as int);
        let ghost sb = b@.subrange(i as int, b@.len() as int);
        if a[i] != b[i] {
            return a[i] < b[i];
        }
        proof {
            assert(sa.drop_first() =~= a@.subrange(i + 1, a@.len() as int));
            assert(sb.drop_first() =~= b@.subrange(i + 1, b@.len() as int));
        }
        i = i + 1;
    }
    i == a.len() && i < b.len()
}

/// The bytes of each key.
pub open spec fn key_bytes(keys: Seq<Vec<u8>>) -> Seq<Seq<u8>> {
    keys.map_values(|k: Vec<u8>| k@)
}

/// `order` lists each index below `n` once.
pub open spec fn is_permutation(order: Seq<usize>, n: int) -> bool {
    &&& order.len() == n
    &&& forall|i: int| 0 <= i < n ==> order[i] < n
    &&& forall|i: int, j: int| 0 <= i < j < n ==> order[i] != order[j]
}

/// The keys taken in the order `order` never go down.
pub open spec fn sorted_by(order: Seq<usize>, keys: Seq<Seq<u8>>) -> bool {
    forall|i: int, j: int| 0 <= i < j < order.len() ==> lex_le(#[trigger] keys[order[i] as int], #[trigger] keys[order[j] as int])
}

/// The order in which to write entries so that their keys are sorted.
pub fn sort_keys(keys: &Vec<Vec<u8>>) -> (order: Vec<usize>)
    ensures
        is_permutation(order@, keys@.len() as int),
        sorted_by(order@, key_bytes(keys@)),
{
    let n = keys.len();
    let ghost ks = key_bytes(keys@);
    let mut order: Vec<usize> = Vec::new();
    let mut k: usize = 0;
    while k < n
        invariant
            k <= n,
            n == keys@.len(),
            order@.len() == k,
            forall|i: int| 0 <= i < k ==> order@[i] == i,
        decreases n - k,
    {
        order.push(k);
        k = k + 1;
    }
    let mut i: usize = 1;
    while i < n
        invariant
            n == keys@.len(),
            ks == key_bytes(keys@),
            is_permutation(order@, n as int),
            1 <= i,
            i < n ==> forall|a: int, b: int| 0 <= a < b < i ==> lex_le(#[trigger] ks[order@[a] as int], #[trigger] ks[order@[b] as int]),
            i >= n ==> sorted_by(order@, ks),
        decreases n - i,
    {
        let mut j: usize = i;
        while j > 0 && key_less(keys[order[j]].as_slice(), keys[order[j - 1]].as_slice())
            invariant
                n == keys@.len(),
                ks == key_bytes(keys@),
                is_permutation(order@, n as int),
                1 <= i < n,
                j <= i,
                forall|a: int, b: int| 0 <= a < b <= i && a != j && b != j ==> lex_le(#[trigger] ks[order@[a] as int], #[trigger] ks[order@[b] as int]),
                forall|b: int| j < b <= i ==> lex_lt(ks[order@[j as int] as int], #[trigger] ks[order@[b] as int]),
            decreases j,
        {
            let x = order[j];
            let y = order[j - 1];
            proof {
                assert(ks[x as int] == keys@[x as int]@);
                assert(ks[y as int] == keys@[y as int]@);
            }
            order.set(j, y);
            order.set(j - 1, x);
            proof {
                assert forall|a: int, b: int| 0 <= a < b <= i && a != j - 1 && b != j - 1 implies lex_le(
                    #[trigger] ks[order@[a] as int],
                    #[trigger] ks[order@[b] as int],
                ) by {
                    if b == j as int {
                        lemma_lex_asymmetric(ks[x as int], ks[y as int]);
                    }
                    if a == j as int {
                        lemma_lex_asymmetric(ks[x as int], ks[y as int]);
                    }
                }
                assert forall|b: int| j - 1 < b <= i implies lex_lt(ks[order@[j - 1] as int], #[trigger] ks[order@[b] as int]) by {
                }
            }
            j = j - 1;
        }
        proof {
            assert forall|a: int, b: int| 0 <= a < b <= i implies lex_le(#[trigger] ks[order@[a] as int], #[trigger] ks[order@[b] as int]) by {
                if b == j as int && a < j {
                    assert(ks[order@[j - 1] as int] == keys@[order@[j - 1] as int]@);
                    assert(ks[order@[j as int] as int] == keys@[order@[j as int] as int]@);
                    if a < j - 1 {
                        lemma_lex_le_transitive(ks[order@[a] as int], ks[order@[j - 1] as int], ks[order@[j as int] as int]);
                    }
                } else if a == j as int {
                    lemma_lex_asymmetric(ks[order@[a] as int], ks[order@[b] as int]);
                }
            }
        }
        i = i + 1;
    }
    proof {
        if n <= 1 {
            assert(sorted_by(order@, ks));
        }
    }
    order
}

// Dicts whose keys are not all `str`.

/// A dict key, as far as turning it into text goes: `None`, a `bool`, an
/// `int` (none when it does not fit in 64 bits), a `float` (its text, which
/// `null` stands for when it is not finite), a `datetime`, `date` or
/// `time`, a `uuid` (its text), an enum member (its value), a `str` or
/// subclass (its UTF-8 text, none when it cannot be encoded), or another
/// type.
pub enum KeyValue {
    Null,
    Bool(bool),
    Int(Option<i64>),
    Float(Vec<u8>),
    Datetime(DateTime),
    Date(Date),
    Time(Time),
    Uuid(Vec<u8>),
    Enum(Box<KeyValue>),
    Str(Option<Vec<u8>>),
    StrSubclass(Option<Vec<u8>>),
    Other,
}

/// Why a key cannot be turned into text.
#[derive(Clone, Copy, Debug, PartialEq, Eq, Structural)]
pub enum NonStrError {
    DatetimeLibraryUnsupported,
    IntegerRange,
    InvalidStr,
    TimeTzinfo,
    UnsupportedType,
}

/// The keys that can be written without failing on the way: a datetime or
/// time within its fields' ranges, and a datetime whose text fits.
pub open spec fn key_ok(k: KeyValue) -> bool
    decreases k,
{
    match k {
        KeyValue::Datetime(dt) => {
            &&& dt.microsecond < 1_000_000
            &&& dt.tz matches TzInfo::Offset { second, .. } ==> 0 <= second < 86400
            &&& spec_datetime(dt) matches Some(t) ==> t.len() <= 32
        },
        KeyValue::Time(tm) => tm.microsecond < 1_000_000,
        KeyValue::Enum(b) => key_ok(*b),
        _ => true,
    }
}

/// The text of a key.
pub open spec fn spec_key_text(k: KeyValue) -> Result<Seq<u8>, NonStrError>
    decreases k,
{
    match k {
        KeyValue::Null => Ok(seq![110u8, 117u8, 108u8, 108u8]),
        KeyValue::Bool(b) => Ok(if b { seq![116u8, 114u8, 117u8, 101u8] } else { seq![102u8, 97u8, 108u8, 115u8, 101u8] }),
        KeyValue::Int(v) => match v {
            Some(n) => Ok(int_text(n as int)),
            None => Err(NonStrError::IntegerRange),
        },
        KeyValue::Float(text) => Ok(text@),
        KeyValue::Datetime(dt) => match spec_datetime(dt) {
            Some(t) => Ok(t),
            None => Err(NonStrError::DatetimeLibraryUnsupported),
        },
        KeyValue::Date(d) => Ok(date_text(d.year as int, d.month as int, d.day as int)),
        KeyValue::Time(tm) => if tm.has_tz {
            Err(NonStrError::TimeTzinfo)
        } else {
            Ok(time_text(tm.hour as int, tm.minute as int, tm.second as int, tm.microsecond as nat, tm.opts))
        },
        KeyValue::Uuid(text) => Ok(text@),
        KeyValue::Enum(b) => spec_key_text(*b),
        KeyValue::Str(s) => match s {
            Some(b) => Ok(b@),
            None => Err(NonStrError::InvalidStr),
        },
        KeyValue::StrSubclass(s) => match s {
            Some(b) => Ok(b@),
            None => Err(NonStrError::InvalidStr),
        },
        KeyValue::Other => Err(NonStrError::UnsupportedType),
    }
}

/// The error a key that cannot be turned into text gives.
pub open spec fn spec_key_error(e: NonStrError) -> SerializeError {
    match e {
        NonStrError::TimeTzinfo => SerializeError::TimeHasTzinfo,
        NonStrError::IntegerRange => SerializeError::DictIntegerKey64Bit,
        NonStrError::DatetimeLibraryUnsupported => SerializeError::DatetimeLibraryUnsupported,
        NonStrError::InvalidStr => SerializeError::InvalidStr,
        NonStrError::UnsupportedType => SerializeError::DictKeyUnsupportedType,
    }
}

/// The texts of the first `n` keys, or the error of the first that has
/// none.
pub open spec fn key_texts(keys: Seq<KeyValue>, n: int) -> Result<Seq<Seq<u8>>, NonStrError>
    decreases n,
{
    if n <= 0 {
        Ok(seq![])
    } else {
        match key_texts(keys, n - 1) {
            Err(e) => Err(e),
            Ok(ts) => match spec_key_text(keys[n - 1]) {
                Ok(t) => Ok(ts.push(t)),
                Err(e) => Err(e),
            },
        }
    }
}

pub proof fn lemma_key_texts_err(keys: Seq<KeyValue>, n: int, m: int)
    requires
        0 <= n <= m,
        key_texts(keys, n) is Err,
    ensures
        key_texts(keys, m) == key_texts(keys, n),
    decreases m - n,
{
    if m > n {
        lemma_key_texts_err(keys, n, m - 1);
    }
}

pub proof fn lemma_str_key_texts_err(keys: Seq<(bool, Option<Vec<u8>>)>, n: int, m: int)
    requires
        0 <= n <= m,
        str_key_texts(keys, n) is Err,
    ensures
        str_key_texts(keys, m) == str_key_texts(keys, n),
    decreases m - n,
{
    if m > n {
        lemma_str_key_texts_err(keys, n, m - 1);
    }
}

/// Entries to write: the text of each key, and the order to write them in
/// (an index into the keys and into the values).
#[derive(Debug)]
pub struct KeyedEntries {
    pub texts: Vec<Vec<u8>>,
    pub order: Vec<usize>,
}

/// The order is the keys' own, or sorted by their texts.
pub open spec fn entries_order(order: Seq<usize>, texts: Seq<Seq<u8>>, sort: bool) -> bool {
    &&& is_permutation(order, texts.len() as int)
    &&& sort ==> sorted_by(order, texts)
    &&& !sort ==> forall|i: int| 0 <= i < order.len() ==> order[i] == i
}

/// The indices `0..n` in order.
fn identity_order(n: usize) -> (order: Vec<usize>)
    ensures
        is_permutation(order@, n as int),
        forall|i: int| 0 <= i < n ==> order@[i] == i,
{
    let mut order: Vec<usize> = Vec::new();
    let mut k: usize = 0;
    while k < n
        invariant
            k <= n,
            order@.len() == k,
            forall|i: int| 0 <= i < k ==> order@[i] == i,
        decreases n - k,
    {
        order.push(k);
        k = k + 1;
    }
    order
}

/// A dict whose keys are turned into text, then written in their own order
/// or sorted.
pub struct NonStrKey {
    pub opts: Opt,
    pub len: usize,
}

impl NonStrKey {
    pub fn new(opts: Opt, len: usize) -> (k: Self)
        ensures
            k.opts == opts,
            k.len == len,
    {
        NonStrKey { opts, len }
    }

    /// The text of a key that is not a `str`: `null`, `true`, `false`, the
    /// digits of an integer, the text of a float, date, time, datetime or
    /// uuid, the text of an enum member's value; another type has none.
    pub fn pyobject_to_string(&self, key: &KeyValue) -> (r: Result<Vec<u8>, NonStrError>)
        requires
            key_ok(*key),
        ensures
            match spec_key_text(*key) {
                Ok(t) => r is Ok && r->Ok_0@ == t,
                Err(e) => r == Err::<Vec<u8>, NonStrError>(e),
            },
        decreases *key,
    {
        match key {
            KeyValue::Null => {
                let v: Vec<u8> = vec![110u8, 117u8, 108u8, 108u8];
                proof {
                    assert(v@ =~= seq![110u8, 117u8, 108u8, 108u8]);
                }
                Ok(v)
            },
            KeyValue::Bool(b) => {
                if *b {
                    let v: Vec<u8> = vec![116u8, 114u8, 117u8, 101u8];
                    proof {
                        assert(v@ =~= seq![116u8, 114u8, 117u8, 101u8]);
                    }
                    Ok(v)
                } else {
                    let v: Vec<u8> = vec![102u8, 97u8, 108u8, 115u8, 101u8];
                    proof {
                        assert(v@ =~= seq![102u8, 97u8, 108u8, 115u8, 101u8]);
                    }
                    Ok(v)
                }
            },
            KeyValue::Int(v) => match v {
                Some(n) => Ok(itoa_format(*n)),
                None => Err(NonStrError::IntegerRange),
            },
            KeyValue::Float(text) => Ok(vstd::slice::slice_to_vec(text.as_slice())),
            KeyValue::Datetime(dt) => match dt.serialize() {
                Ok(t) => Ok(t),
                Err(_) => Err(NonStrError::DatetimeLibraryUnsupported),
            },
            KeyValue::Date(d) => Ok(d.serialize()),
            KeyValue::Time(tm) => match tm.serialize() {
                Ok(t) => Ok(t),
                Err(_) => Err(NonStrError::TimeTzinfo),
            },
            KeyValue::Uuid(text) => Ok(vstd::slice::slice_to_vec(text.as_slice())),
            KeyValue::Enum(b) => self.pyobject_to_string(b),
            KeyValue::Str(s) => match s {
                Some(b) => Ok(vstd::slice::slice_to_vec(b.as_slice())),
                None => Err(NonStrError::InvalidStr),
            },
            KeyValue::StrSubclass(s) => match s {
                Some(b) => Ok(vstd::slice::slice_to_vec(b.as_slice())),
                None => Err(NonStrError::InvalidStr),
            },
            KeyValue::Other => Err(NonStrError::UnsupportedType),
        }
    }

    /// The entries of the dict: each key's text, in the dict's order or
    /// sorted when keys are to be sorted; the first key without a text
    /// gives the error.
    pub fn serialize(&self, keys: &Vec<KeyValue>) -> (r: Result<KeyedEntries, SerializeError>)
        requires
            forall|i: int| 0 <= i < keys@.len() ==> key_ok(#[trigger] keys@[i]),
        ensures
            match key_texts(keys@, keys@.len() as int) {
                Ok(ts) => r matches Ok(en) && en.texts@.map_values(|t: Vec<u8>| t@) == ts
                    && entries_order(en.order@, ts, self.opts & SORT_KEYS != 0),
                Err(e) => r matches Err(se) && se == spec_key_error(e),
            },
    {
        let mut texts: Vec<Vec<u8>> = Vec::new();
        let mut i: usize = 0;
        while i < keys.len()
            invariant
                i <= keys@.len(),
                forall|k: int| 0 <= k < keys@.len() ==> key_ok(#[trigger] keys@[k]),
                key_texts(keys@, i as int) matches Ok(ts) && texts@.map_values(|t: Vec<u8>| t@) == ts,
            decreases keys.len() - i,
        {
            match self.pyobject_to_string(&keys[i]) {
                Ok(t) => {
                    let ghost before = texts@;
                    texts.push(t);
                    proof {
                        assert(texts@.map_values(|t: Vec<u8>| t@) =~= before.map_values(|t: Vec<u8>| t@).push(t@));
                    }
                },
                Err(e) => {
                    proof {
                        lemma_key_texts_err(keys@, i + 1, keys@.len() as int);
                    }
                    return Err(
                        match e {
                            NonStrError::TimeTzinfo => SerializeError::TimeHasTzinfo,
                            NonStrError::IntegerRange => SerializeError::DictIntegerKey64Bit,
                            NonStrError::DatetimeLibraryUnsupported => SerializeError::DatetimeLibraryUnsupported,
                            NonStrError::InvalidStr => SerializeError::InvalidStr,
                            NonStrError::UnsupportedType => SerializeError::DictKeyUnsupportedType,
                        },
                    );
                },
            }
            i = i + 1;
        }
        let order = if self.opts & SORT_KEYS != 0 {
            sort_keys(&texts)
        } else {
            identity_order(texts.len())
        };
        Ok(KeyedEntries { texts, order })
    }
}

/// A dict whose `str` keys are written sorted.
pub struct DictSortedKey {
    pub opts: Opt,
    pub len: usize,
}

/// The texts of the first `n` keys, each of which must be an exact `str`
/// that can be encoded; the first that is not gives the error.
pub open spec fn str_key_texts(keys: Seq<(bool, Option<Vec<u8>>)>, n: int) -> Result<Seq<Seq<u8>>, SerializeError>
    decreases n,
{
    if n <= 0 {
        Ok(seq![])
    } else {
        match str_key_texts(keys, n - 1) {
            Err(e) => Err(e),
            Ok(ts) => {
                let (is_str, utf8) = keys[n - 1];
                if !is_str {
                    Err(SerializeError::KeyMustBeStr)
                } else {
                    match utf8 {
                        Some(b) => Ok(ts.push(b@)),
                        None => Err(SerializeError::InvalidStr),
                    }
                }
            },
        }
    }
}

impl DictSortedKey {
    pub fn new(opts: Opt, len: usize) -> (k: Self)
        ensures
            k.opts == opts,
            k.len == len,
    {
        DictSortedKey { opts, len }
    }

    /// The entries of the dict sorted by key; each key, given as whether it
    /// is an exact `str` and its text, must be a `str` that can be encoded.
    pub fn serialize(&self, keys: &Vec<(bool, Option<Vec<u8>>)>) -> (r: Result<KeyedEntries, SerializeError>)
        ensures
            match str_key_texts(keys@, keys@.len() as int) {
                Ok(ts) => r matches Ok(en) && en.texts@.map_values(|t: Vec<u8>| t@) == ts
                    && entries_order(en.order@, ts, true),
                Err(e) => r matches Err(se) && se == e,
            },
    {
        let mut texts: Vec<Vec<u8>> = Vec::new();
        let mut i: usize = 0;
        while i < keys.len()
            invariant
                i <= keys@.len(),
                str_key_texts(keys@, i as int) matches Ok(ts) && texts@.map_values(|t: Vec<u8>| t@) == ts,
            decreases keys.len() - i,
        {
            let (is_str, utf8) = &keys[i];
            if !*is_str {
                proof {
                    lemma_str_key_texts_err(keys@, i + 1, keys@.len() as int);
                }
                return Err(SerializeError::KeyMustBeStr);
            }
            match utf8 {
                Some(b) => {
                    let ghost before = texts@;
                    let t = vstd::slice::slice_to_vec(b.as_slice());
                    texts.push(t);
                    proof {
                        assert(texts@.map_values(|t: Vec<u8>| t@) =~= before.map_values(|t: Vec<u8>| t@).push(b@));
                    }
                },
                None => {
                    proof {
                        lemma_str_key_texts_err(keys@, i + 1, keys@.len() as int);
                    }
                    return Err(SerializeError::InvalidStr);
                },
            }
            i = i + 1;
        }
        let order = sort_keys(&texts);
        Ok(KeyedEntries { texts, order })
    }
}

} // verus!
