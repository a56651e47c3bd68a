use vstd::prelude::*;
use crate::text::str_eq;

verus! {

/// The value given to the option `key` on the command line: the argument right after
/// the first occurrence of `key`, if there is one.
pub open spec fn arg_spec(args: Seq<Seq<char>>, key: Seq<char>) -> Option<Seq<char>> {
    if exists|i: int| 0 <= i < args.len() && args[i] == key {
        let i = choose|i: int| 0 <= i < args.len() && args[i] == key && (forall|j: int| 0 <= j < i ==> args[j] != key);
        if i + 1 < args.len() {
            Some(args[i + 1])
        } else {
            None
        }
    } else {
        None
    }
}

/// The value of the command-line option `key`.
pub fn arg(args: &Vec<String>, key: &str) -> (r: Option<String>)
    ensures
        match r {
            Some(v) => arg_spec(args@.map_values(|a: String| a@), key@) == Some(v@),
            None => arg_spec(args@.map_values(|a: String| a@), key@) is None,
        },
{
    let ghost s = args@.map_values(|a: String| a@);
    let n = args.len();
    let mut i: usize = 0;
    while i < n && !str_eq(args[i].as_str(), key)
        invariant
            i <= n,
            n == args@.len(),
            s == args@.map_values(|a: String| a@),
            forall|j: int| 0 <= j < i ==> s[j] != key@,
        decreases n - i,
    {
        i = i + 1;
    }
    if i == n {
        return None;
    }
    assert(s[i as int] == key@);
    let ghost k = choose|k: int| 0 <= k < s.len() && s[k] == key@ && (forall|j: int| 0 <= j < k ==> s[j] != key@);
    assert(k == i);
    if i + 1 < n {
        Some(args[i + 1].clone())
    } else {
        None
    }
}

}
