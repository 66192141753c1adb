//! A plain model of a parsed JSON document, as the normaliser reads it.
use vstd::prelude::*;

verus! {

/// A JSON number. Every number carries its value as an IEEE-754 double
/// (its bit pattern), and its exact value when it is written as an integer.
pub struct JsonNumber {
    /// The exact value, when the number is an integer.
    pub integer: Option<i128>,
    /// The bit pattern of the number's value as a double.
    pub double_bits: u64,
}

/// A JSON value. An object keeps its members in order; a lookup finds the
/// first member with the key asked for.
pub enum JsonValue {
    Null,
    Bool(bool),
    Number(JsonNumber),
    Str(String),
    Array(Vec<JsonValue>),
    Object(Vec<(String, JsonValue)>),
}

/// Index of the first member of `members`, from position `i` on, whose key
/// is `key`, if any.
pub open spec fn find_from(members: Seq<(String, JsonValue)>, key: Seq<char>, i: int) -> Option<int>
    decreases members.len() - i,
{
    if i < 0 || i >= members.len() {
        None
    } else if members[i].0@ == key {
        Some(i)
    } else {
        find_from(members, key, i + 1)
    }
}

/// The value of the first member of `members` whose key is `key`.
pub open spec fn member(members: Seq<(String, JsonValue)>, key: Seq<char>) -> Option<JsonValue> {
    match find_from(members, key, 0) {
        Some(i) => Some(members[i].1),
        None => None,
    }
}

/// A key that no member of `members` carries is found nowhere.
pub proof fn lemma_absent_key(members: Seq<(String, JsonValue)>, key: Seq<char>, i: int)
    requires
        forall|k: int| 0 <= k < members.len() ==> (#[trigger] members[k]).0@ != key,
    ensures
        find_from(members, key, i) is None,
    decreases members.len() - i,
{
    if 0 <= i < members.len() {
        lemma_absent_key(members, key, i + 1);
    }
}

/// Whether two strings hold the same characters.
pub fn same_text(a: &str, b: &str) -> (r: bool)
    ensures
        r == (a@ == b@),
{
    let n = a.unicode_len();
    if n != b.unicode_len() {
        return false;
    }
    let mut i: usize = 0;
    while i < n
        invariant
            n == a@.len(),
            n == b@.len(),
            i <= n,
            a@.subrange(0, i as int) == b@.subrange(0, i as int),
        decreases n - i,
    {
        if a.get_char(i) != b.get_char(i) {
            assert(a@[i as int] != b@[i as int]);
            return false;
        }
        assert(a@.subrange(0, i + 1) == a@.subrange(0, i as int).push(a@[i as int]));
        assert(b@.subrange(0, i + 1) == b@.subrange(0, i as int).push(b@[i as int]));
        i = i + 1;
    }
    assert(a@ == a@.subrange(0, n as int));
    assert(b@ == b@.subrange(0, n as int));
    true
}

/// The value of the first member of `members` named `key`.
pub fn get_member<'a>(members: &'a Vec<(String, JsonValue)>, key: &str) -> (r: Option<&'a JsonValue>)
    ensures
        match r {
            Some(v) => member(members@, key@) == Some(*v),
            None => member(members@, key@) is None,
        },
{
    let mut i: usize = 0;
    while i < members.len()
        invariant
            i <= members@.len(),
            find_from(members@, key@, 0) == find_from(members@, key@, i as int),
        decreases members.len() - i,
    {
        if same_text(members[i].0.as_str(), key) {
            return Some(&members[i].1);
        }
        i = i + 1;
    }
    None
}

} // verus!
