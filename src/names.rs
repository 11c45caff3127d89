use vstd::prelude::*;

verus! {

/// An ASCII decimal digit.
pub open spec fn is_digit_char(c: char) -> bool {
    '0' <= c && c <= '9'
}

/// An ASCII letter, an ASCII digit or an underscore.
pub open spec fn is_identifier_char(c: char) -> bool {
    ('a' <= c && c <= 'z') || ('A' <= c && c <= 'Z') || is_digit_char(c) || c == '_'
}

/// A valid column name: not empty, not starting with a digit, and made only
/// of ASCII letters, digits and underscores.
pub open spec fn valid_name(s: Seq<char>) -> bool {
    &&& s.len() > 0
    &&& !is_digit_char(s[0])
    &&& forall|i: int| 0 <= i < s.len() ==> is_identifier_char(#[trigger] s[i])
}

/// Every name is valid and no name occurs twice.
pub open spec fn valid_schema(names: Seq<Seq<char>>) -> bool {
    &&& forall|i: int| 0 <= i < names.len() ==> valid_name(#[trigger] names[i])
    &&& forall|i: int, j: int|
        0 <= i < names.len() && 0 <= j < names.len() && i != j ==> #[trigger] names[i]
            != #[trigger] names[j]
}

fn is_identifier_char_exec(c: char) -> (r: bool)
    ensures
        r == is_identifier_char(c),
{
    ('a' <= c && c <= 'z') || ('A' <= c && c <= 'Z') || ('0' <= c && c <= '9') || c == '_'
}

/// Check if the given name is a valid identifier, to be used as a column
/// name in `Labels`.
pub fn is_valid_label_name(name: &str) -> (r: bool)
    ensures
        r == valid_name(name@),
{
    let n = name.unicode_len();
    if n == 0 {
        return false;
    }
    let first = name.get_char(0);
    if '0' <= first && first <= '9' {
        return false;
    }
    let mut i: usize = 0;
    while i < n
        invariant
            n == name@.len(),
            i <= n,
            forall|k: int| 0 <= k < i ==> is_identifier_char(#[trigger] name@[k]),
        decreases n - i,
    {
        let c = name.get_char(i);
        if !is_identifier_char_exec(c) {
            return false;
        }
        i = i + 1;
    }
    true
}

fn same_name(a: &str, b: &str) -> (r: bool)
    ensures
        r == (a@ == b@),
{
    let n = a.unicode_len();
    if n != b.unicode_len() {
        return false;
    }
    let mut i: usize = 0;
    while i < n
        invariant
            n == a@.len(),
            n == b@.len(),
            i <= n,
            forall|k: int| 0 <= k < i ==> a@[k] == b@[k],
        decreases n - i,
    {
        if a.get_char(i) != b.get_char(i) {
            return false;
        }
        i = i + 1;
    }
    assert(a@ =~= b@);
    true
}

/// Check that every name is a valid identifier and that no name occurs
/// twice: the schema that `LabelsBuilder::new` accepts.
pub fn is_valid_schema(names: &[&str]) -> (r: bool)
    ensures
        r == valid_schema(names@.map_values(|s: &str| s@)),
{
    let ghost views = names@.map_values(|s: &str| s@);
    let mut i: usize = 0;
    while i < names.len()
        invariant
            i <= names@.len(),
            views == names@.map_values(|s: &str| s@),
            forall|k: int| 0 <= k < i ==> valid_name(#[trigger] views[k]),
            forall|k: int, l: int|
                0 <= k < i && 0 <= l < names@.len() && k != l ==> #[trigger] views[k]
                    != #[trigger] views[l],
        decreases names@.len() - i,
    {
        if !is_valid_label_name(names[i]) {
            assert(!valid_name(views[i as int]));
            return false;
        }
        let mut j: usize = 0;
        while j < names.len()
            invariant
                i < names@.len(),
                j <= names@.len(),
                views == names@.map_values(|s: &str| s@),
                forall|l: int| 0 <= l < j && l != i ==> views[i as int] != #[trigger] views[l],
            decreases names@.len() - j,
        {
            if j != i && same_name(names[i], names[j]) {
                assert(views[i as int] == views[j as int]);
                return false;
            }
            j = j + 1;
        }
        i = i + 1;
    }
    true
}

} // verus!
