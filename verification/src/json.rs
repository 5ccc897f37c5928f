use vstd::prelude::*;

verus! {

/// Mathematical model of a JSON document: strings are character sequences,
/// integers are unbounded, objects are ordered lists of key/value pairs.
pub enum JsonVal {
    Null,
    Bool(bool),
    Int(int),
    Str(Seq<char>),
    Arr(Seq<JsonVal>),
    Obj(Seq<(Seq<char>, JsonVal)>),
}

/// A JSON-shaped payload value, as handed to and returned by the dispatchers.
/// The transport's own document type is converted to and from this one at the
/// boundary of the library.
#[derive(Debug, PartialEq)]
pub enum JsonValue {
    Null,
    Bool(bool),
    Int(i64),
    Str(String),
    Arr(Vec<JsonValue>),
    Obj(Vec<(String, JsonValue)>),
}

pub open spec fn jv(v: JsonValue) -> JsonVal
    decreases v,
{
    match v {
        JsonValue::Null => JsonVal::Null,
        JsonValue::Bool(b) => JsonVal::Bool(b),
        JsonValue::Int(i) => JsonVal::Int(i as int),
        JsonValue::Str(s) => JsonVal::Str(s@),
        JsonValue::Arr(items) => JsonVal::Arr(jv_seq(items@)),
        JsonValue::Obj(pairs) => JsonVal::Obj(jv_pairs(pairs@)),
    }
}

pub open spec fn jv_seq(s: Seq<JsonValue>) -> Seq<JsonVal>
    decreases s,
{
    if s.len() == 0 {
        Seq::empty()
    } else {
        seq![jv(s[0])] + jv_seq(s.drop_first())
    }
}

pub open spec fn jv_pairs(s: Seq<(String, JsonValue)>) -> Seq<(Seq<char>, JsonVal)>
    decreases s,
{
    if s.len() == 0 {
        Seq::empty()
    } else {
        seq![(s[0].0@, jv(s[0].1))] + jv_pairs(s.drop_first())
    }
}

impl View for JsonValue {
    type V = JsonVal;

    open spec fn view(&self) -> JsonVal {
        jv(*self)
    }
}

pub proof fn lemma_jv_seq_index(s: Seq<JsonValue>)
    ensures
        jv_seq(s).len() == s.len(),
        forall|i: int| 0 <= i < s.len() ==> #[trigger] jv_seq(s)[i] == jv(s[i]),
    decreases s,
{
    if s.len() > 0 {
        lemma_jv_seq_index(s.drop_first());
    }
}

pub proof fn lemma_jv_pairs_index(s: Seq<(String, JsonValue)>)
    ensures
        jv_pairs(s).len() == s.len(),
        forall|i: int| 0 <= i < s.len() ==> #[trigger] jv_pairs(s)[i] == (s[i].0@, jv(
            s[i].1,
        )),
    decreases s,
{
    if s.len() > 0 {
        lemma_jv_pairs_index(s.drop_first());
    }
}

/// The first value bound to `key`, if any.
pub open spec fn obj_get(pairs: Seq<(Seq<char>, JsonVal)>, key: Seq<char>) -> Option<JsonVal>
    decreases pairs.len(),
{
    if pairs.len() == 0 {
        None
    } else if pairs[0].0 == key {
        Some(pairs[0].1)
    } else {
        obj_get(pairs.drop_first(), key)
    }
}

proof fn lemma_obj_get_skip(pairs: Seq<(Seq<char>, JsonVal)>, key: Seq<char>, i: int)
    requires
        0 <= i <= pairs.len(),
        forall|j: int| 0 <= j < i ==> (#[trigger] pairs[j]).0 != key,
    ensures
        obj_get(pairs, key) == obj_get(pairs.skip(i), key),
    decreases i,
{
    if i > 0 {
        assert(pairs[0].0 != key);
        assert forall|j: int| 0 <= j < i - 1 implies (#[trigger] pairs.drop_first()[j]).0
            != key by {
            assert(pairs.drop_first()[j] == pairs[j + 1]);
        }
        assert(pairs.skip(i) =~= pairs.drop_first().skip(i - 1));
        lemma_obj_get_skip(pairs.drop_first(), key, i - 1);
    } else {
        assert(pairs.skip(0) =~= pairs);
    }
}

impl JsonValue {
    /// Looks `key` up among the fields of an object; `None` on any other
    /// shape of document and when the key is absent.
    pub fn get_field<'a>(&'a self, key: &str) -> (r: Option<&'a JsonValue>)
        ensures
            (*self) matches JsonValue::Obj(p) ==> ({
                &&& (r matches Some(v) ==> obj_get(jv_pairs(p@), key@) == Some(jv(*v)))
                &&& (r is None ==> obj_get(jv_pairs(p@), key@) is None)
            }),
            !((*self) matches JsonValue::Obj(_)) ==> r is None,
    {
        match self {
            JsonValue::Obj(pairs) => {
                proof {
                    assert(*self == JsonValue::Obj(*pairs));
                    lemma_jv_pairs_index(pairs@);
                }
                let n = pairs.len();
                let mut i: usize = 0;
                while i < n
                    invariant
                        *self == JsonValue::Obj(*pairs),
                        n == pairs.len(),
                        0 <= i <= n,
                        forall|j: int| 0 <= j < i ==> (#[trigger] jv_pairs(pairs@)[j]).0 != key@,
                        jv_pairs(pairs@).len() == pairs@.len(),
                        forall|j: int|
                            0 <= j < pairs@.len() ==> #[trigger] jv_pairs(pairs@)[j] == (
                            pairs@[j].0@,
                            jv(pairs@[j].1),
                            ),
                    decreases n - i,
                {
                    if str_eq_string(key, &pairs[i].0) {
                        proof {
                            lemma_obj_get_skip(jv_pairs(pairs@), key@, i as int);
                            assert(jv_pairs(pairs@).skip(i as int)[0] == jv_pairs(pairs@)[i as int]);
                        }
                        return Some(&pairs[i].1);
                    }
                    i += 1;
                }
                proof {
                    lemma_obj_get_skip(jv_pairs(pairs@), key@, n as int);
                }
                None
            },
            _ => None,
        }
    }
}

/// Collects the characters of a string slice.
pub fn str_to_chars(s: &str) -> (v: Vec<char>)
    ensures
        v@ == s@,
{
    let mut v: Vec<char> = Vec::new();
    for c in it: s.chars()
        invariant
            it.seq() == s@,
            v@ == it.seq().subrange(0, it.index()),
    {
        v.push(c);
    }
    proof {
        assert(v@ == s@.subrange(0, s@.len() as int));
        assert(s@.subrange(0, s@.len() as int) == s@);
    }
    v
}

/// Whether two string slices spell the same characters.
pub fn str_eq(a: &str, b: &str) -> (r: bool)
    ensures
        r == (a@ == b@),
{
    let av = str_to_chars(a);
    let bv = str_to_chars(b);
    chars_eq(&av, &bv)
}

/// Relies on String::from_iter (through Iterator::collect): builds the string
/// spelling exactly the given characters.
#[verifier::external_body]
pub(crate) fn chars_to_string(v: &Vec<char>) -> (s: String)
    ensures
        s@ == v@,
{
    v.iter().collect()
}

/// Whether a string slice and an owned string spell the same characters.
pub fn str_eq_string(a: &str, b: &String) -> (r: bool)
    ensures
        r == (a@ == b@),
{
    let av = str_to_chars(a);
    let bv = str_to_chars(b.as_str());
    chars_eq(&av, &bv)
}

/// Whether two character vectors are equal.
pub fn chars_eq(a: &Vec<char>, b: &Vec<char>) -> (r: bool)
    ensures
        r == (a@ == b@),
{
    if a.len() != b.len() {
        return false;
    }
    let n = a.len();
    let mut i: usize = 0;
    while i < n
        invariant
            n == a.len() == b.len(),
            0 <= i <= n,
            forall|j: int| 0 <= j < i ==> a@[j] == b@[j],
        decreases n - i,
    {
        if a[i] != b[i] {
            return false;
        }
        i += 1;
    }
    proof {
        assert(a@ =~= b@);
    }
    true
}

} // verus!
