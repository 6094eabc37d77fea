//! Chained-fragment packet buffer.
//!
//! A `NetBuffer` is a growable, shrinkable sequence of octets stored as a
//! chain of fixed-capacity fragments.  Each fragment owns a window of live
//! octets plus reserved space before and after it, so protocol layers can
//! prepend headers and trim them off again without copying the payload.
//! The abstract value of a buffer is the concatenation of the fragment
//! windows, available in specifications as `buf@`.

use vstd::prelude::*;
use vstd::seq_lib::lemma_flatten_concat;
use vstd::slice::slice_subrange;
use vstd::std_specs::vec::vec_index_mut;

verus! {

/// Number of octets of storage in one fragment.
pub const FRAGMENT_SIZE: usize = 512;

/// One link of a buffer chain: `data` holds the live window, while `pre` and
/// `post` count the reserved octets before and after it.  The three always
/// total `FRAGMENT_SIZE`, and a live fragment is never empty.
struct Fragment {
    pre: usize,
    data: Vec<u8>,
    post: usize,
}

impl Fragment {
    spec fn wf(&self) -> bool {
        &&& self.pre + self.data@.len() + self.post == FRAGMENT_SIZE
        &&& self.data@.len() >= 1
    }
}

/// The windows of a fragment chain, in order.
spec fn windows_of(s: Seq<Fragment>) -> Seq<Seq<u8>> {
    s.map_values(|f: Fragment| f.data@)
}

/// The octets of a fragment chain: the concatenation of its windows.
spec fn frags_view(s: Seq<Fragment>) -> Seq<u8> {
    windows_of(s).flatten()
}

proof fn lemma_frags_view_empty(s: Seq<Fragment>)
    requires
        s.len() == 0,
    ensures
        frags_view(s) == Seq::<u8>::empty(),
{
    assert(windows_of(s) =~= Seq::<Seq<u8>>::empty());
}

/// Peeling the first fragment off the front of the view.
proof fn lemma_frags_view_first(s: Seq<Fragment>)
    requires
        s.len() > 0,
    ensures
        frags_view(s) == s[0].data@ + frags_view(s.drop_first()),
{
    assert(windows_of(s).first() == s[0].data@);
    assert(windows_of(s).drop_first() =~= windows_of(s.drop_first()));
    assert(windows_of(s).flatten() == windows_of(s).first() + windows_of(s).drop_first().flatten());
}

/// Extending a prefix of the chain by one fragment extends the view by its
/// window.
proof fn lemma_frags_view_take_step(s: Seq<Fragment>, n: int)
    requires
        0 <= n < s.len(),
    ensures
        frags_view(s.take(n + 1)) == frags_view(s.take(n)) + s[n].data@,
{
    assert(windows_of(s.take(n + 1)) =~= windows_of(s.take(n)).push(s[n].data@));
    windows_of(s.take(n)).lemma_flatten_push(s[n].data@);
}

proof fn lemma_frags_view_take_all(s: Seq<Fragment>)
    ensures
        frags_view(s.take(s.len() as int)) == frags_view(s),
{
    assert(s.take(s.len() as int) =~= s);
}

/// The view of a chain splits at any fragment boundary.
proof fn lemma_frags_view_split(s: Seq<Fragment>, n: int)
    requires
        0 <= n <= s.len(),
    ensures
        frags_view(s) == frags_view(s.take(n)) + frags_view(s.skip(n)),
{
    assert(windows_of(s) =~= windows_of(s.take(n)) + windows_of(s.skip(n)));
    lemma_flatten_concat(windows_of(s.take(n)), windows_of(s.skip(n)));
}

/// Appending a fragment at the back extends the view by its window.
proof fn lemma_frags_view_push(s: Seq<Fragment>, f: Fragment)
    ensures
        frags_view(s.push(f)) == frags_view(s) + f.data@,
{
    assert(windows_of(s.push(f)) =~= windows_of(s).push(f.data@));
    windows_of(s).lemma_flatten_push(f.data@);
}

/// Replacing the window of the first fragment replaces the front of the view.
broadcast proof fn lemma_frags_view_update_first(s: Seq<Fragment>, f: Fragment)
    requires
        s.len() > 0,
    ensures
        #[trigger] frags_view(s.update(0, f)) == f.data@ + frags_view(s.drop_first()),
{
    lemma_frags_view_first(s.update(0, f));
    assert(s.update(0, f).drop_first() =~= s.drop_first());
}

/// Replacing the window of the last fragment replaces the back of the view.
proof fn lemma_frags_view_update_last(s: Seq<Fragment>, f: Fragment)
    requires
        s.len() > 0,
    ensures
        frags_view(s.update(s.len() - 1, f)) == frags_view(s.take(s.len() - 1)) + f.data@,
        frags_view(s) == frags_view(s.take(s.len() - 1)) + s.last().data@,
{
    let n = s.len() - 1;
    lemma_frags_view_split(s.update(n, f), n);
    assert(s.update(n, f).take(n) =~= s.take(n));
    lemma_frags_view_first(s.update(n, f).skip(n));
    lemma_frags_view_empty(s.update(n, f).skip(n).drop_first());
    assert(s.update(n, f).skip(n)[0] == f);
    assert(frags_view(s.update(n, f).skip(n)) =~= f.data@);
    lemma_frags_view_split(s, n);
    lemma_frags_view_first(s.skip(n));
    lemma_frags_view_empty(s.skip(n).drop_first());
    assert(frags_view(s.skip(n)) =~= s.last().data@);
}

/// A variable-sized container of octets, chained from fixed-size fragments.
pub struct NetBuffer {
    fragments: Vec<Fragment>,
    length: usize,
}

impl View for NetBuffer {
    type V = Seq<u8>;

    closed spec fn view(&self) -> Seq<u8> {
        frags_view(self.fragments@)
    }
}

impl NetBuffer {
    /// Well-formedness: every fragment is within bounds and non-empty, and
    /// the cached length equals the sum of the fragment windows.
    pub closed spec fn wf(&self) -> bool {
        &&& forall|i: int| 0 <= i < self.fragments@.len() ==> (#[trigger] self.fragments@[i]).wf()
        &&& self.length == self@.len()
    }

    /// Number of fragments in the chain.
    pub closed spec fn frag_count(&self) -> int {
        self.fragments@.len() as int
    }

    /// The live window of fragment `i`.
    pub closed spec fn window(&self, i: int) -> Seq<u8> {
        self.fragments@[i].data@
    }

    /// Length of the first fragment's window: the portion of the buffer that
    /// `header` exposes as one contiguous slice.
    pub open spec fn head_len(&self) -> int {
        if self.frag_count() > 0 {
            self.window(0).len() as int
        } else {
            0
        }
    }

    broadcast proof fn lemma_wf_facts(&self)
        requires
            #[trigger] self.wf(),
        ensures
            self@.len() == 0 <==> self.frag_count() == 0,
            self.frag_count() > 0 ==> self@.take(self.head_len()) == self.window(0),
            self.frag_count() > 0 ==> 1 <= self.head_len() <= FRAGMENT_SIZE,
    {
        if self.fragments@.len() == 0 {
            lemma_frags_view_empty(self.fragments@);
        } else {
            lemma_frags_view_first(self.fragments@);
            assert(self.fragments@[0].wf());
            assert(self@.take(self.head_len()) =~= self.window(0));
        }
    }

    /// Create an empty buffer.
    pub fn new() -> (r: NetBuffer)
        ensures
            r.wf(),
            r@ == Seq::<u8>::empty(),
            r.frag_count() == 0,
    {
        proof {
            lemma_frags_view_empty(Seq::<Fragment>::empty());
        }
        NetBuffer { fragments: Vec::new(), length: 0 }
    }

    /// Create a buffer of exactly `length` zero octets, spanning the least
    /// number of fragments that can hold them.
    pub fn new_prealloc(length: usize) -> (r: NetBuffer)
        ensures
            r.wf(),
            r@ == Seq::new(length as nat, |i: int| 0u8),
            r.frag_count() == (length + FRAGMENT_SIZE - 1) / FRAGMENT_SIZE as int,
    {
        let mut buf = NetBuffer::new();
        let mut to_add: usize = length;
        while to_add > 0
            invariant
                to_add <= length,
                buf.wf(),
                buf@ =~= Seq::new((length - to_add) as nat, |i: int| 0u8),
                buf.frag_count() == ((length - to_add) + FRAGMENT_SIZE - 1) / FRAGMENT_SIZE as int,
                to_add > 0 ==> (length - to_add) % FRAGMENT_SIZE as int == 0,
            decreases to_add,
        {
            let frag_size: usize = if to_add > FRAGMENT_SIZE {
                FRAGMENT_SIZE
            } else {
                to_add
            };
            let data: Vec<u8> = vec![0u8; frag_size];
            let frag = Fragment { pre: 0, data, post: FRAGMENT_SIZE - frag_size };
            proof {
                lemma_frags_view_push(buf.fragments@, frag);
            }
            buf.fragments.push(frag);
            buf.length = buf.length + frag_size;
            to_add = to_add - frag_size;
            proof {
                assert(buf@ =~= Seq::new((length - to_add) as nat, |i: int| 0u8));
            }
        }
        buf
    }

    /// Total number of octets in the buffer.
    pub fn len(&self) -> (r: usize)
        requires
            self.wf(),
        ensures
            r == self@.len(),
    {
        self.length
    }

    /// True when the buffer holds no octets.
    pub fn is_empty(&self) -> (r: bool)
        requires
            self.wf(),
        ensures
            r == (self@.len() == 0),
    {
        self.length == 0
    }

    /// Reserve `size` zeroed octets at the front of the buffer, contiguous in
    /// the first fragment, for a protocol header.  If the first fragment has
    /// `size` octets of headroom they are used, so repeated prepends stay in
    /// place; otherwise a fresh fragment is put at the head with its window
    /// anchored at the tail, leaving room for later prepends.
    pub fn alloc_header(&mut self, size: usize)
        requires
            old(self).wf(),
            size <= FRAGMENT_SIZE,
            old(self)@.len() + size <= usize::MAX,
        ensures
            final(self).wf(),
            final(self)@ == Seq::new(size as nat, |i: int| 0u8) + old(self)@,
            final(self).head_len() >= size,
    {
        if size == 0 {
            proof {
                assert(self@ =~= Seq::new(0, |i: int| 0u8) + self@);
            }
            return ;
        }
        let need_new_frag = if self.fragments.len() == 0 {
            true
        } else {
            self.fragments[0].pre < size
        };
        let ghost pre_frags = self.fragments@;
        if need_new_frag {
            let data: Vec<u8> = vec![0u8; size];
            let frag = Fragment { pre: FRAGMENT_SIZE - size, data, post: 0 };
            self.fragments.insert(0, frag);
            proof {
                assert(windows_of(self.fragments@) =~= seq![frag.data@] + windows_of(pre_frags));
                lemma_flatten_concat(seq![frag.data@], windows_of(pre_frags));
                seq![frag.data@].lemma_flatten_one_element();
            }
        } else {
            proof {
                lemma_frags_view_first(pre_frags);
            }
            let f = vec_index_mut(&mut self.fragments, 0);
            let mut data: Vec<u8> = vec![0u8; size];
            data.append(&mut f.data);
            f.data = data;
            f.pre = f.pre - size;
            proof {
                lemma_frags_view_update_first(pre_frags, self.fragments@[0]);
                assert(self.fragments@ =~= pre_frags.update(0, self.fragments@[0]));
            }
        }
        self.length = self.length + size;
        proof {
            assert(self@ =~= Seq::new(size as nat, |i: int| 0u8) + frags_view(pre_frags));
        }
    }

    /// Remove `size` octets from the front of the buffer.  Fragments that are
    /// wholly consumed are released; a partially consumed one keeps its tail.
    pub fn trim_head(&mut self, size: usize)
        requires
            old(self).wf(),
            size <= old(self)@.len(),
        ensures
            final(self).wf(),
            final(self)@ == old(self)@.skip(size as int),
    {
        let ghost orig = self@;
        let mut remaining: usize = size;
        while remaining > 0 && self.fragments.len() > 0 && self.fragments[0].data.len()
            <= remaining
            invariant
                self.wf(),
                remaining <= size,
                size <= orig.len(),
                self@ =~= orig.skip(size - remaining),
                remaining <= self@.len(),
            decreases remaining,
        {
            let ghost pre = self.fragments@;
            let ghost rem0 = remaining as int;
            let frag_len = self.fragments[0].data.len();
            proof {
                lemma_frags_view_first(pre);
            }
            let _dead = self.fragments.remove(0);
            self.length = self.length - frag_len;
            remaining = remaining - frag_len;
            proof {
                assert(self.fragments@ =~= pre.drop_first());
                assert(self@ =~= frags_view(pre).skip(frag_len as int));
                assert(frags_view(pre) =~= orig.skip(size - rem0));
                vstd::seq_lib::lemma_seq_skip_of_skip(orig, size - rem0, frag_len as int);
                assert(self@ =~= orig.skip(size - remaining));
            }
        }
        if remaining > 0 {
            let ghost pre = self.fragments@;
            proof {
                lemma_frags_view_first(pre);
            }
            let f = vec_index_mut(&mut self.fragments, 0);
            let tail = f.data.split_off(remaining);
            f.data = tail;
            f.pre = f.pre + remaining;
            self.length = self.length - remaining;
            proof {
                lemma_frags_view_update_first(pre, self.fragments@[0]);
                assert(self.fragments@ =~= pre.update(0, self.fragments@[0]));
                assert(self@ =~= frags_view(pre).skip(remaining as int));
                assert(self@ =~= orig.skip(size as int));
            }
        }
    }
    /// Remove `size` octets from the end of the buffer, releasing any
    /// fragments that become wholly unused.
    pub fn trim_tail(&mut self, size: usize)
        requires
            old(self).wf(),
            size <= old(self)@.len(),
        ensures
            final(self).wf(),
            final(self)@ == old(self)@.take(old(self)@.len() - size),
    {
        let ghost orig = self@;
        if size == 0 {
            proof {
                assert(self@.take(self@.len() as int) =~= self@);
            }
            return ;
        }
        if size == self.length {
            self.fragments.clear();
            self.length = 0;
            proof {
                lemma_frags_view_empty(self.fragments@);
                assert(self@ =~= orig.take(orig.len() - size));
            }
            return ;
        }
        let target: usize = self.length - size;
        let ghost s = self.fragments@;
        let count = self.fragments.len();
        let mut idx: usize = 0;
        let mut acc: usize = 0;
        proof {
            assert(s.take(0) =~= Seq::<Fragment>::empty());
            lemma_frags_view_empty(s.take(0));
        }
        while target - acc > self.fragments[idx].data.len()
            invariant
                self.wf(),
                self.fragments@ == s,
                s.len() == count,
                0 < target <= orig.len(),
                orig == frags_view(s),
                acc == frags_view(s.take(idx as int)).len(),
                acc < target,
                idx < count,
            decreases count - idx,
        {
            let w = self.fragments[idx].data.len();
            proof {
                lemma_frags_view_take_step(s, idx as int);
            }
            acc = acc + w;
            idx = idx + 1;
            proof {
                if idx == s.len() {
                    lemma_frags_view_take_all(s);
                    assert(false);
                }
            }
        }
        let w = self.fragments[idx].data.len();
        let keep: usize = target - acc;
        proof {
            lemma_frags_view_split(s, idx as int);
            lemma_frags_view_first(s.skip(idx as int));
        }
        if keep < w {
            let f = vec_index_mut(&mut self.fragments, idx);
            f.data.truncate(keep);
            f.post = f.post + (w - keep);
        }
        let ghost mid = self.fragments@;
        self.fragments.truncate(idx + 1);
        self.length = target;
        proof {
            assert(self.fragments@ =~= mid.take(idx as int).push(mid[idx as int]));
            assert(mid.take(idx as int) =~= s.take(idx as int));
            lemma_frags_view_push(mid.take(idx as int), mid[idx as int]);
            assert(mid[idx as int].data@ =~= s[idx as int].data@.take(keep as int));
            assert(self@ =~= orig.take(target as int));
        }
    }

    /// Copy `data` onto the tail of the buffer, filling the last fragment's
    /// spare room first and then adding fragments as needed.
    pub fn append_from_slice(&mut self, data: &[u8])
        requires
            old(self).wf(),
            old(self)@.len() + data@.len() <= usize::MAX,
        ensures
            final(self).wf(),
            final(self)@ == old(self)@ + data@,
    {
        let ghost orig = self@;
        let mut offset: usize = 0;
        while offset < data.len()
            invariant
                self.wf(),
                offset <= data@.len(),
                self@.len() + (data@.len() - offset) <= usize::MAX,
                self@ =~= orig + data@.take(offset as int),
            decreases data@.len() - offset,
        {
            let n = self.fragments.len();
            let space: usize = if n == 0 {
                0
            } else {
                self.fragments[n - 1].post
            };
            if space > 0 {
                let room = data.len() - offset;
                let chunk: usize = if space < room {
                    space
                } else {
                    room
                };
                let piece = slice_subrange(data, offset, offset + chunk);
                let ghost pre = self.fragments@;
                let f = vec_index_mut(&mut self.fragments, n - 1);
                f.data.extend_from_slice(piece);
                f.post = f.post - chunk;
                self.length = self.length + chunk;
                proof {
                    lemma_frags_view_update_last(pre, self.fragments@[n - 1]);
                    assert(self.fragments@ =~= pre.update(pre.len() - 1, self.fragments@[n - 1]));
                    let p = frags_view(pre.take(pre.len() - 1));
                    assert(self.fragments@[n - 1].data@ == pre.last().data@ + piece@);
                    assert(self@ == p + (pre.last().data@ + piece@));
                    assert(frags_view(pre) == p + pre.last().data@);
                    assert(self@ =~= frags_view(pre) + piece@);
                    assert(frags_view(pre) == orig + data@.take(offset as int));
                    assert(self@ =~= orig + data@.take(offset + chunk));
                }
                offset = offset + chunk;
            } else {
                let room = data.len() - offset;
                let chunk: usize = if FRAGMENT_SIZE < room {
                    FRAGMENT_SIZE
                } else {
                    room
                };
                let piece = slice_subrange(data, offset, offset + chunk);
                let mut d: Vec<u8> = Vec::new();
                d.extend_from_slice(piece);
                proof {
                    assert(d@ =~= piece@);
                }
                let frag = Fragment { pre: 0, data: d, post: FRAGMENT_SIZE - chunk };
                let ghost gf = frag;
                let ghost pre = self.fragments@;
                self.fragments.push(frag);
                self.length = self.length + chunk;
                proof {
                    lemma_frags_view_push(pre, gf);
                    assert(self@ =~= orig + data@.take(offset + chunk));
                }
                offset = offset + chunk;
            }
        }
        proof {
            assert(data@.take(data@.len() as int) =~= data@);
        }
    }

    /// Copy the whole buffer out as one contiguous vector.
    fn to_vec(&self) -> (r: Vec<u8>)
        requires
            self.wf(),
        ensures
            r@ == self@,
    {
        let ghost s = self.fragments@;
        let mut out: Vec<u8> = Vec::new();
        let mut i: usize = 0;
        proof {
            assert(s.take(0) =~= Seq::<Fragment>::empty());
            lemma_frags_view_empty(s.take(0));
        }
        while i < self.fragments.len()
            invariant
                self.wf(),
                self.fragments@ == s,
                i <= s.len(),
                out@ =~= frags_view(s.take(i as int)),
            decreases s.len() - i,
        {
            proof {
                lemma_frags_view_take_step(s, i as int);
                lemma_frags_view_split(s, i as int + 1);
            }
            out.extend_from_slice(self.fragments[i].data.as_slice());
            i = i + 1;
        }
        proof {
            lemma_frags_view_take_all(s);
        }
        out
    }

    /// Copy up to `dest.len()` octets out of the front of the buffer, leaving
    /// the buffer unchanged, and report how many were copied.
    pub fn copy_to_slice(&self, dest: &mut [u8]) -> (copied: usize)
        requires
            self.wf(),
        ensures
            copied == if self@.len() < old(dest)@.len() {
                self@.len() as int
            } else {
                old(dest)@.len() as int
            },
            final(dest)@ == self@.take(copied as int) + old(dest)@.skip(copied as int),
    {
        let v = self.to_vec();
        let total: usize = if v.len() < dest.len() {
            v.len()
        } else {
            dest.len()
        };
        let mut i: usize = 0;
        proof {
            assert(dest@ =~= v@.take(0) + dest@.skip(0));
        }
        while i < total
            invariant
                total <= v@.len(),
                total <= dest@.len(),
                v@ == self@,
                i <= total,
                dest@.len() == old(dest)@.len(),
                dest@ =~= v@.take(i as int) + old(dest)@.skip(i as int),
            decreases total - i,
        {
            let b = v[i];
            dest[i] = b;
            i = i + 1;
            proof {
                assert(dest@ =~= v@.take(i as int) + old(dest)@.skip(i as int));
            }
        }
        total
    }

    /// Copy the first `length` octets of `other` (or all of it, if shorter)
    /// onto the tail of this buffer, leaving `other` unchanged.
    pub fn append_from_buffer(&mut self, other: &NetBuffer, length: usize)
        requires
            old(self).wf(),
            other.wf(),
            old(self)@.len() + other@.len() <= usize::MAX,
        ensures
            final(self).wf(),
            final(self)@ == old(self)@ + other@.take(
                if length < other@.len() {
                    length as int
                } else {
                    other@.len() as int
                },
            ),
    {
        let other_len = other.len();
        let n: usize = if length < other_len {
            length
        } else {
            other_len
        };
        let v = other.to_vec();
        let piece = slice_subrange(v.as_slice(), 0, n);
        self.append_from_slice(piece);
    }

    /// Splice the whole chain of `other` onto the tail of this buffer;
    /// `other` is consumed.
    pub fn append_buffer(&mut self, other: NetBuffer)
        requires
            old(self).wf(),
            other.wf(),
            old(self)@.len() + other@.len() <= usize::MAX,
        ensures
            final(self).wf(),
            final(self)@ == old(self)@ + other@,
    {
        let ghost orig = self@;
        let ghost from = other@;
        let mut other = other;
        let other_len = other.length;
        while other.fragments.len() > 0
            invariant
                forall|i: int|
                    0 <= i < self.fragments@.len() ==> (#[trigger] self.fragments@[i]).wf(),
                forall|i: int|
                    0 <= i < other.fragments@.len() ==> (#[trigger] other.fragments@[i]).wf(),
                frags_view(self.fragments@) + frags_view(other.fragments@) =~= orig + from,
                self.length == orig.len(),
                other_len == from.len(),
                orig.len() + from.len() <= usize::MAX,
            decreases other.fragments@.len(),
        {
            let ghost pre_o = other.fragments@;
            let ghost pre_s = self.fragments@;
            proof {
                lemma_frags_view_first(pre_o);
            }
            let f = other.fragments.remove(0);
            proof {
                lemma_frags_view_push(pre_s, f);
            }
            self.fragments.push(f);
            proof {
                assert(other.fragments@ =~= pre_o.drop_first());
                assert(frags_view(self.fragments@) + frags_view(other.fragments@) =~= orig + from);
            }
        }
        self.length = self.length + other_len;
        proof {
            lemma_frags_view_empty(other.fragments@);
            assert(self@ =~= orig + from);
        }
    }

    /// Borrow the first fragment's live window: the contiguous prefix of the
    /// buffer that holds the most recently prepended header.
    pub fn header(&self) -> (r: &[u8])
        requires
            self.wf(),
            self@.len() > 0,
        ensures
            r@.len() == self.head_len(),
            1 <= self.head_len() <= self@.len(),
            r@ == self@.take(self.head_len()),
    {
        proof {
            self.lemma_wf_facts();
        }
        self.fragments[0].data.as_slice()
    }

    /// Borrow the first fragment's live window mutably, for writing header
    /// fields in place.  Writes through the slice become the new front of the
    /// buffer; the rest is unchanged.
    pub fn header_mut(&mut self) -> (r: &mut [u8])
        requires
            old(self).wf(),
            old(self)@.len() > 0,
        ensures
            r@.len() == old(self).head_len(),
            1 <= old(self).head_len() <= old(self)@.len(),
            r@ == old(self)@.take(old(self).head_len()),
            final(r)@.len() == r@.len() ==> {
                &&& final(self).wf()
                &&& final(self)@ == final(r)@ + old(self)@.skip(old(self).head_len())
                &&& final(self)@.len() == old(self)@.len()
                &&& final(self).head_len() == old(self).head_len()
            },
    {
        proof {
            broadcast use lemma_frags_view_update_first;

            self.lemma_wf_facts();
            lemma_frags_view_first(self.fragments@);
        }
        let f = vec_index_mut(&mut self.fragments, 0);
        f.data.as_mut_slice()
    }

    /// Prepend `data` at the front of the buffer as one contiguous header.
    pub fn prepend_from_slice(&mut self, data: &[u8])
        requires
            old(self).wf(),
            data@.len() <= FRAGMENT_SIZE,
            old(self)@.len() + data@.len() <= usize::MAX,
        ensures
            final(self).wf(),
            final(self)@ == data@ + old(self)@,
            final(self).head_len() >= data@.len(),
    {
        let n = data.len();
        if n == 0 {
            proof {
                assert(self@ =~= data@ + self@);
            }
            return ;
        }
        self.alloc_header(n);
        let ghost v1 = self@;
        let ghost hl = self.head_len();
        let hm = self.header_mut();
        let ghost r0 = hm@;
        let mut j: usize = 0;
        while j < n
            invariant
                j <= n,
                n == data@.len(),
                n <= r0.len(),
                hm@.len() == r0.len(),
                r0 == v1.take(hl),
                hm@ =~= data@.take(j as int) + r0.skip(j as int),
            decreases n - j,
        {
            hm[j] = data[j];
            j = j + 1;
            proof {
                assert(hm@ =~= data@.take(j as int) + r0.skip(j as int));
            }
        }
        proof {
            assert(hm@ =~= data@ + r0.skip(n as int));
        }
        proof {
            assert(self@ =~= data@ + old(self)@) by {
                assert(self@ == (data@ + v1.take(hl).skip(n as int)) + v1.skip(hl));
                assert(v1 == Seq::new(n as nat, |i: int| 0u8) + old(self)@);
                assert((data@ + v1.take(hl).skip(n as int)) + v1.skip(hl) =~= data@ + v1.skip(
                    n as int,
                ));
                assert(v1.skip(n as int) =~= old(self)@);
            }
        }
    }

    /// A cursor over at most `length` octets of the buffer, yielded as one
    /// contiguous slice per fragment.
    pub fn iter(&self, length: usize) -> (r: BufferIterator<'_>)
        requires
            self.wf(),
        ensures
            r.wf(),
            r.source() == *self,
            r.frag_pos() == 0,
            r.bytes_left() == length,
    {
        BufferIterator { buf: self, frag_idx: 0, remaining: length }
    }
}

/// A cursor over the fragment windows of a `NetBuffer`.
pub struct BufferIterator<'a> {
    buf: &'a NetBuffer,
    frag_idx: usize,
    remaining: usize,
}

impl<'a> BufferIterator<'a> {
    /// The buffer being walked.
    pub closed spec fn source(&self) -> NetBuffer {
        *self.buf
    }

    /// Index of the fragment the next call will yield.
    pub closed spec fn frag_pos(&self) -> int {
        self.frag_idx as int
    }

    /// Octets the cursor is still allowed to yield.
    pub closed spec fn bytes_left(&self) -> int {
        self.remaining as int
    }

    pub closed spec fn wf(&self) -> bool {
        self.buf.wf()
    }

    /// Yield the next fragment window, clipped to the remaining byte budget,
    /// or `None` when the budget or the chain is exhausted.
    pub fn next(&mut self) -> (r: Option<&'a [u8]>)
        requires
            old(self).wf(),
        ensures
            final(self).wf(),
            final(self).source() == old(self).source(),
            (old(self).bytes_left() == 0 || old(self).frag_pos() >= old(
                self,
            ).source().frag_count()) ==> (r is None && *final(self) == *old(self)),
            (old(self).bytes_left() > 0 && old(self).frag_pos() < old(self).source().frag_count())
                ==> {
                &&& r is Some
                &&& r->Some_0@ == old(self).source().window(old(self).frag_pos()).take(
                    if old(self).bytes_left() < old(self).source().window(
                        old(self).frag_pos(),
                    ).len() {
                        old(self).bytes_left()
                    } else {
                        old(self).source().window(old(self).frag_pos()).len() as int
                    },
                )
                &&& r->Some_0@.len() > 0
                &&& final(self).frag_pos() == old(self).frag_pos() + 1
                &&& final(self).bytes_left() == old(self).bytes_left() - r->Some_0@.len()
            },
    {
        if self.remaining == 0 || self.frag_idx >= self.buf.fragments.len() {
            return None;
        }
        let f = &self.buf.fragments[self.frag_idx];
        let w = f.data.len();
        let slice_len: usize = if w < self.remaining {
            w
        } else {
            self.remaining
        };
        proof {
            assert(self.buf.fragments@[self.frag_idx as int].wf());
        }
        let s = slice_subrange(f.data.as_slice(), 0, slice_len);
        self.remaining = self.remaining - slice_len;
        self.frag_idx = self.frag_idx + 1;
        proof {
            assert(s@ =~= self.buf.fragments@[self.frag_idx as int - 1].data@.take(
                slice_len as int,
            ));
        }
        Some(s)
    }
}

impl Default for NetBuffer {
    /// An empty buffer.
    fn default() -> (r: NetBuffer)
        ensures
            r.wf(),
            r@ == Seq::<u8>::empty(),
    {
        NetBuffer::new()
    }
}

/// Round trip through a buffer: appending a slice `s` to an empty buffer
/// gives it the value `s`, and copying into a destination of at least
/// `s.len()` octets puts exactly `s` in the destination's first `s.len()`
/// octets.  The two inner expressions are the ensured values of
/// `append_from_slice` on an empty buffer and of `copy_to_slice`.
pub proof fn lemma_append_copy_round_trip(s: Seq<u8>, dest0: Seq<u8>)
    requires
        s.len() <= dest0.len(),
    ensures
        ({
            let v = Seq::<u8>::empty() + s;
            let copied = if v.len() < dest0.len() {
                v.len() as int
            } else {
                dest0.len() as int
            };
            (v.take(copied) + dest0.skip(copied)).take(s.len() as int) == s
        }),
{
    let v = Seq::<u8>::empty() + s;
    let copied = if v.len() < dest0.len() {
        v.len() as int
    } else {
        dest0.len() as int
    };
    assert((v.take(copied) + dest0.skip(copied)).take(s.len() as int) =~= s);
}

/// Reserving a header and trimming it off again is length-neutral and
/// restores the buffer's exact value: the ensured value of `alloc_header`
/// followed by that of `trim_head` is the original view.
pub proof fn lemma_alloc_header_trim_head_neutral(v: Seq<u8>, h: int)
    requires
        0 <= h,
    ensures
        (Seq::new(h as nat, |i: int| 0u8) + v).skip(h) == v,
        (Seq::new(h as nat, |i: int| 0u8) + v).len() - h == v.len(),
{
    assert((Seq::new(h as nat, |i: int| 0u8) + v).skip(h) =~= v);
}

/// A freshly reserved header is zero-filled: every one of the first `h`
/// octets of the ensured value of `alloc_header` is zero.
pub proof fn lemma_alloc_header_zeroed(v: Seq<u8>, h: int)
    requires
        0 <= h,
    ensures
        (Seq::new(h as nat, |j: int| 0u8) + v).take(h) == Seq::new(h as nat, |j: int| 0u8),
{
    assert((Seq::new(h as nat, |j: int| 0u8) + v).take(h) =~= Seq::new(h as nat, |j: int| 0u8));
}

/// Total octets of fragment storage behind `count` fragments.
pub fn buffer_count_to_memory(count: u32) -> (r: u32)
    requires
        count * FRAGMENT_SIZE <= u32::MAX,
    ensures
        r == count * FRAGMENT_SIZE,
{
    count * (FRAGMENT_SIZE as u32)
}

} // verus!
