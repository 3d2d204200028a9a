use vstd::prelude::*;

verus! {

/// `dst` followed by copies of the samples of `src`.
pub fn append_copies<T: Copy>(dst: &mut Vec<T>, src: &[T])
    ensures
        final(dst)@ == old(dst)@ + src@,
{
    let ghost d0 = dst@;
    let mut i: usize = 0;
    while i < src.len()
        invariant
            i <= src@.len(),
            dst@ == d0 + src@.take(i as int),
        decreases src@.len() - i,
    {
        dst.push(src[i]);
        assert(src@.take(i + 1) =~= src@.take(i as int).push(src@[i as int]));
        i = i + 1;
    }
    assert(src@.take(i as int) =~= src@);
}

/// A copy of the samples of `src`.
pub fn copy_samples<T: Copy>(src: &Vec<T>) -> (v: Vec<T>)
    ensures
        v@ == src@,
{
    let mut v: Vec<T> = Vec::new();
    append_copies(&mut v, src.as_slice());
    v
}

} // verus!
