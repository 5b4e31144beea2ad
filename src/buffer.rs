use vstd::prelude::*;

verus! {

/// What `v` holds after being cut or grown to `n` items, new ones being `value`.
pub open spec fn resized<T>(v: Seq<T>, n: int, value: T) -> Seq<T> {
    Seq::new(n as nat, |k: int| if k < v.len() { v[k] } else { value })
}

/// Cuts `v` to its first `n` items, or grows it to `n` items by appending
/// copies of `value`.
pub fn resize_filled<T: Copy>(v: &mut Vec<T>, n: usize, value: T)
    ensures
        final(v)@ == resized(old(v)@, n as int, value),
{
    let ghost orig = v@;
    v.truncate(n);
    while v.len() < n
        invariant
            v@.len() <= n,
            orig == old(v)@,
            n <= orig.len() ==> v@.len() >= n,
            n > orig.len() ==> v@.len() >= orig.len(),
            forall|k: int| 0 <= k < v@.len() ==> #[trigger] v@[k] == if k < orig.len() {
                orig[k]
            } else {
                value
            },
        decreases n - v@.len(),
    {
        v.push(value);
    }
    assert(v@ =~= resized(orig, n as int, value));
}

} // verus!
