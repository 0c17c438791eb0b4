use vstd::prelude::*;

verus! {

/// Whether two strings hold the same chars (compared through their UTF-8
/// bytes, which determine the chars).
pub fn str_eq(a: &str, b: &str) -> (r: bool)
    ensures
        r == (a@ == b@),
{
    let x = a.as_bytes();
    let y = b.as_bytes();
    proof {
        vstd::utf8::encode_utf8_decode_utf8(a@);
        vstd::utf8::encode_utf8_decode_utf8(b@);
    }
    if x.len() != y.len() {
        return false;
    }
    let mut i: usize = 0;
    while i < x.len()
        invariant
            x@ == vstd::utf8::encode_utf8(a@),
            y@ == vstd::utf8::encode_utf8(b@),
            x.len() == y.len(),
            i <= x.len(),
            forall|k: int| 0 <= k < i ==> x@[k] == y@[k],
        decreases x.len() - i,
    {
        if x[i] != y[i] {
            return false;
        }
        i = i + 1;
    }
    assert(x@ =~= y@);
    true
}

} // verus!

verus! {

/// `a` followed by `b`.
pub fn concat(a: &str, b: &str) -> (r: String)
    ensures
        r@ == a@ + b@,
{
    let mut r = a.to_owned();
    let chars = crate::parser::chars::collect_chars(b);
    let mut i: usize = 0;
    while i < chars.len()
        invariant
            i <= chars.len(),
            chars@ == b@,
            r@ == a@ + b@.take(i as int),
        decreases chars.len() - i,
    {
        crate::parser::chars::string_push(&mut r, chars[i]);
        assert(b@.take(i + 1) =~= b@.take(i as int).push(chars@[i as int]));
        i = i + 1;
    }
    assert(b@.take(i as int) =~= b@);
    r
}

} // verus!
