//! Elementary block copies into a byte vector.

use vstd::prelude::*;

verus! {

/// What a block copy leaves in slot `i`: inside the destination run, the
/// source byte of the same position in its run; elsewhere, what was there.
pub open spec fn block_written(
    before: Seq<u8>,
    dst: int,
    source: Seq<u8>,
    from: int,
    n: int,
    i: int,
) -> u8 {
    if dst <= i < dst + n {
        source[from + i - dst]
    } else {
        before[i]
    }
}

/// Copies `data[from .. from + n]` over `buf[dst .. dst + n]`.
pub fn write_block(buf: &mut Vec<u8>, dst: usize, data: &[u8], from: usize, n: usize)
    requires
        dst + n <= old(buf)@.len(),
        from + n <= data@.len(),
    ensures
        final(buf)@.len() == old(buf)@.len(),
        forall|i: int|
            0 <= i < old(buf)@.len() ==> #[trigger] final(buf)@[i] == block_written(
                old(buf)@,
                dst as int,
                data@,
                from as int,
                n as int,
                i,
            ),
{
    let ghost before = buf@;
    let mut k: usize = 0;
    while k < n
        invariant
            k <= n,
            dst + n <= buf.len(),
            from + n <= data.len(),
            buf@.len() == before.len(),
            forall|i: int|
                0 <= i < before.len() ==> #[trigger] buf@[i] == block_written(
                    before,
                    dst as int,
                    data@,
                    from as int,
                    k as int,
                    i,
                ),
        decreases n - k,
    {
        buf[dst + k] = data[from + k];
        k = k + 1;
    }
}

/// Copies `buf[src .. src + n]` over `buf[dst .. dst + n]`; the two runs
/// do not overlap.
pub fn copy_block(buf: &mut Vec<u8>, src: usize, dst: usize, n: usize)
    requires
        src + n <= old(buf)@.len(),
        dst + n <= old(buf)@.len(),
        src + n <= dst || dst + n <= src,
    ensures
        final(buf)@.len() == old(buf)@.len(),
        forall|i: int|
            0 <= i < old(buf)@.len() ==> #[trigger] final(buf)@[i] == block_written(
                old(buf)@,
                dst as int,
                old(buf)@,
                src as int,
                n as int,
                i,
            ),
{
    let ghost before = buf@;
    let mut k: usize = 0;
    while k < n
        invariant
            k <= n,
            src + n <= buf.len(),
            dst + n <= buf.len(),
            src + n <= dst || dst + n <= src,
            buf@.len() == before.len(),
            forall|i: int|
                0 <= i < before.len() ==> #[trigger] buf@[i] == block_written(
                    before,
                    dst as int,
                    before,
                    src as int,
                    k as int,
                    i,
                ),
        decreases n - k,
    {
        let byte: u8 = buf[src + k];
        buf[dst + k] = byte;
        k = k + 1;
    }
}

} // verus!
