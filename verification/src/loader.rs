//! Loading of the XDP program image into the hot-load area: the code and
//! data are copied to the start of the area and the zero-initialised data
//! that follows them is cleared.
use vstd::prelude::*;

verus! {

/// The size of the hot-load area, in bytes.
pub const HOTLOAD_AREA_SIZE: usize = 4096;

/// The contents of the area after loading `image` followed by `bss_len`
/// zero bytes into an area that held `area`.
pub open spec fn loaded(area: Seq<u8>, image: Seq<u8>, bss_len: nat) -> Seq<u8> {
    image + Seq::new(bss_len, |i: int| 0u8) + area.skip((image.len() + bss_len) as int)
}

/// Copies `image` to the start of `area` and clears the `bss_len` bytes that
/// follow it; the rest of the area is left as it was.
pub fn load_image(area: &mut [u8], image: &[u8], bss_len: usize)
    requires
        image@.len() + bss_len <= old(area)@.len(),
    ensures
        final(area)@ == loaded(old(area)@, image@, bss_len as nat),
{
    let n = image.len();
    let capacity = area.len();
    let mut i: usize = 0;
    while i < n
        invariant
            n == image@.len(),
            n + bss_len <= area@.len(),
            area@.len() == capacity,
            area@.len() == old(area)@.len(),
            i <= n,
            forall|j: int| 0 <= j < i ==> #[trigger] area@[j] == image@[j],
            forall|j: int| i <= j < area@.len() ==> #[trigger] area@[j] == old(area)@[j],
        decreases n - i,
    {
        area[i] = image[i];
        i = i + 1;
    }
    let mut k: usize = 0;
    while k < bss_len
        invariant
            n == image@.len(),
            n + bss_len <= area@.len(),
            area@.len() == capacity,
            area@.len() == old(area)@.len(),
            k <= bss_len,
            forall|j: int| 0 <= j < n ==> #[trigger] area@[j] == image@[j],
            forall|j: int| n <= j < n + k ==> #[trigger] area@[j] == 0u8,
            forall|j: int| n + k <= j < area@.len() ==> #[trigger] area@[j] == old(area)@[j],
        decreases bss_len - k,
    {
        area[n + k] = 0;
        k = k + 1;
    }
    assert(area@ =~= loaded(old(area)@, image@, bss_len as nat));
}

} // verus!
