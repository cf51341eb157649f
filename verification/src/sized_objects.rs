//! A byte stream of length-prefixed objects.
//!
//! Every object is stored as an 8-byte little-endian length header followed by
//! the object's bytes; objects come out in the order in which they went in.

use vstd::prelude::*;
use vstd::bytes::{
    lemma_auto_spec_u64_to_from_le_bytes, spec_u64_from_le_bytes, spec_u64_to_le_bytes,
    u64_from_le_bytes, u64_to_le_bytes,
};
use vstd::slice::slice_subrange;

verus! {

/// Number of bytes of the length header in front of each object.
pub const HEADER_LEN: usize = 8;

/// The encoding of one object: its length as 8 little-endian bytes, then its bytes.
pub open spec fn frame(obj: Seq<u8>) -> Seq<u8> {
    spec_u64_to_le_bytes(obj.len() as u64) + obj
}

/// The encoding of a sequence of objects: their frames, one after the other.
pub open spec fn frames(objs: Seq<Seq<u8>>) -> Seq<u8>
    decreases objs.len(),
{
    if objs.len() == 0 {
        Seq::empty()
    } else {
        frame(objs[0]) + frames(objs.drop_first())
    }
}

/// The length announced by the header at the front of `s`.
pub open spec fn header_value(s: Seq<u8>) -> int {
    spec_u64_from_le_bytes(s.take(8)) as int
}

/// `s` starts with a header and with all the bytes that this header announces.
pub open spec fn front_complete(s: Seq<u8>) -> bool {
    &&& s.len() >= 8
    &&& header_value(s) <= s.len() - 8
}

/// The object at the front of `s` (meaningful when `front_complete(s)`).
pub open spec fn front_object(s: Seq<u8>) -> Seq<u8> {
    s.subrange(8, 8 + header_value(s))
}

/// What follows the object at the front of `s` (meaningful when `front_complete(s)`).
pub open spec fn after_front(s: Seq<u8>) -> Seq<u8> {
    s.subrange(8 + header_value(s), s.len() as int)
}

/// Every object of `s` in order, or `None` when `s` is not a sequence of whole frames.
pub open spec fn objects_of(s: Seq<u8>) -> Option<Seq<Seq<u8>>>
    decreases s.len(),
{
    if s.len() == 0 {
        Some(Seq::empty())
    } else if front_complete(s) {
        match objects_of(after_front(s)) {
            Some(rest) => Some(seq![front_object(s)] + rest),
            None => None,
        }
    } else {
        None
    }
}

/// An object framed and put in front of any bytes is what the front of the
/// stream gives back, and exactly the bytes behind it are left.
pub proof fn lemma_front_of_frame(obj: Seq<u8>, rest: Seq<u8>)
    requires
        obj.len() <= u64::MAX,
    ensures
        front_complete(frame(obj) + rest),
        front_object(frame(obj) + rest) == obj,
        after_front(frame(obj) + rest) == rest,
{
    lemma_auto_spec_u64_to_from_le_bytes();
    let s = frame(obj) + rest;
    let h = spec_u64_to_le_bytes(obj.len() as u64);
    assert(h.len() == 8);
    assert(s.take(8) =~= h);
    assert(header_value(s) == obj.len());
    assert(s.subrange(8, 8 + obj.len() as int) =~= obj);
    assert(s.subrange(8 + obj.len() as int, s.len() as int) =~= rest);
}

/// Framing one more object at the back extends the encoding of the earlier
/// objects by the frame of the new one.
pub proof fn lemma_frames_push(objs: Seq<Seq<u8>>, obj: Seq<u8>)
    ensures
        frames(objs.push(obj)) == frames(objs) + frame(obj),
    decreases objs.len(),
{
    if objs.len() == 0 {
        assert(objs.push(obj).drop_first() =~= Seq::<Seq<u8>>::empty());
        assert(frames(objs.push(obj).drop_first()) == Seq::<u8>::empty());
        assert(objs.push(obj)[0] == obj);
        assert(frames(objs.push(obj)) =~= frame(obj) + Seq::<u8>::empty());
        assert(frames(objs) + frame(obj) =~= frame(obj));
    } else {
        lemma_frames_push(objs.drop_first(), obj);
        assert(objs.push(obj).drop_first() =~= objs.drop_first().push(obj));
        assert(objs.push(obj)[0] == objs[0]);
        assert(frames(objs.push(obj)) =~= frame(objs[0]) + (frames(objs.drop_first()) + frame(obj)));
        assert(frames(objs) + frame(obj) =~= frame(objs[0]) + (frames(objs.drop_first()) + frame(obj)));
    }
}

/// Reading a stream of frames back gives every object, in the order in which
/// the objects were framed.
pub proof fn lemma_objects_of_frames(objs: Seq<Seq<u8>>)
    requires
        forall|i: int| 0 <= i < objs.len() ==> #[trigger] objs[i].len() <= u64::MAX,
    ensures
        objects_of(frames(objs)) == Some(objs),
    decreases objs.len(),
{
    if objs.len() > 0 {
        lemma_auto_spec_u64_to_from_le_bytes();
        let rest = objs.drop_first();
        assert forall|i: int| 0 <= i < rest.len() implies #[trigger] rest[i].len() <= u64::MAX by {
            assert(rest[i] == objs[i + 1]);
        }
        lemma_objects_of_frames(rest);
        lemma_front_of_frame(objs[0], frames(rest));
        let s = frames(objs);
        assert(spec_u64_to_le_bytes(objs[0].len() as u64).len() == 8);
        assert(s.len() > 0);
        assert(seq![objs[0]] + rest =~= objs);
    }
}

/// Taking the front object of an empty buffer after appending one object gives
/// that object back and leaves the buffer empty.
pub proof fn lemma_remove_front_undoes_append_back(obj: Seq<u8>)
    requires
        obj.len() <= u64::MAX,
    ensures
        front_complete(Seq::<u8>::empty() + frame(obj)),
        front_object(Seq::<u8>::empty() + frame(obj)) == obj,
        after_front(Seq::<u8>::empty() + frame(obj)) == Seq::<u8>::empty(),
{
    lemma_front_of_frame(obj, Seq::<u8>::empty());
    assert(Seq::<u8>::empty() + frame(obj) =~= frame(obj) + Seq::<u8>::empty());
}

/// One step of reading a stream of whole frames: the front object is the first
/// object, and what is left reads as the remaining objects.
pub proof fn lemma_objects_of_step(s: Seq<u8>)
    requires
        objects_of(s) is Some,
        s.len() > 0,
    ensures
        front_complete(s),
        objects_of(after_front(s)) is Some,
        objects_of(s).unwrap() == seq![front_object(s)] + objects_of(after_front(s)).unwrap(),
        after_front(s).len() == s.len() - 8 - front_object(s).len(),
{
}

/// A stream of whole frames holds at most one object per 8 bytes, since every
/// object is preceded by an 8-byte header.
pub proof fn lemma_object_count_bound(s: Seq<u8>)
    requires
        objects_of(s) is Some,
    ensures
        objects_of(s).unwrap().len() * 8 <= s.len(),
    decreases s.len(),
{
    if s.len() > 0 {
        lemma_objects_of_step(s);
        lemma_object_count_bound(after_front(s));
    }
}

/// A growable buffer of length-prefixed objects.
pub struct SizedObjectsBytes(Vec<u8>);

impl View for SizedObjectsBytes {
    type V = Seq<u8>;

    closed spec fn view(&self) -> Seq<u8> {
        self.0@
    }
}

impl SizedObjectsBytes {
    /// An empty buffer.
    pub fn new() -> (r: Self)
        ensures
            r@ == Seq::<u8>::empty(),
    {
        SizedObjectsBytes(Vec::new())
    }

    /// Appends `bytes` as one more object at the back of the buffer.
    pub fn append_back(&mut self, bytes: Vec<u8>)
        requires
            old(self)@.len() + HEADER_LEN + bytes@.len() <= isize::MAX,
        ensures
            final(self)@ == old(self)@ + frame(bytes@),
    {
        let mut bytes = bytes;
        let header = u64_to_le_bytes(bytes.len() as u64);
        self.0.extend_from_slice(header.as_slice());
        assert(self.0@ == old(self)@ + header@);
        self.0.append(&mut bytes);
    }

    /// Removes the object at the front of the buffer and returns its bytes.
    pub fn remove_front(&mut self) -> (obj: Vec<u8>)
        requires
            front_complete(old(self)@),
        ensures
            obj@ == front_object(old(self)@),
            final(self)@ == after_front(old(self)@),
    {
        let ghost s = self.0@;
        let rest = self.0.split_off(HEADER_LEN);
        assert(self.0@ == s.take(8));
        let n = u64_from_le_bytes(self.0.as_slice());
        assert(n as int == header_value(s));
        assert(n <= rest.len());
        let len = n as usize;
        assert(len as int == header_value(s));
        let mut obj = rest;
        let tail = obj.split_off(len);
        self.0 = tail;
        assert(obj@ =~= front_object(s));
        assert(self.0@ =~= after_front(s));
        obj
    }

    /// The bytes of the whole buffer.
    pub fn get(&self) -> (bytes: &Vec<u8>)
        ensures
            bytes@ == self@,
    {
        &self.0
    }

    /// Whether the buffer starts with a header and all the bytes it announces,
    /// so that `remove_front` can take an object.
    pub fn has_complete_front(&self) -> (b: bool)
        ensures
            b == front_complete(self@),
    {
        if self.0.len() < HEADER_LEN {
            false
        } else {
            let header = slice_subrange(self.0.as_slice(), 0, HEADER_LEN);
            let n = u64_from_le_bytes(header);
            assert(header@ == self@.take(8));
            n as usize as u64 == n && (n as usize) <= self.0.len() - HEADER_LEN
        }
    }

    /// Every object of the stream, in order; the buffer is used up.
    pub fn collect_objects(self) -> (objs: Vec<Vec<u8>>)
        requires
            objects_of(self@) is Some,
        ensures
            objs@.len() == objects_of(self@).unwrap().len(),
            forall|i: int| 0 <= i < objs@.len() ==> #[trigger] objs@[i]@ == objects_of(self@).unwrap()[i],
    {
        let ghost all = objects_of(self@).unwrap();
        let mut rest = self;
        let mut objs: Vec<Vec<u8>> = Vec::new();
        while rest.0.len() > 0
            invariant
                objects_of(rest@) is Some,
                objs@.len() + objects_of(rest@).unwrap().len() == all.len(),
                forall|i: int| 0 <= i < objs@.len() ==> #[trigger] objs@[i]@ == all[i],
                forall|i: int|
                    0 <= i < objects_of(rest@).unwrap().len() ==> #[trigger] objects_of(rest@).unwrap()[i]
                        == all[objs@.len() + i],
            decreases rest@.len(),
        {
            let ghost before = rest@;
            proof {
                lemma_objects_of_step(before);
            }
            let obj = rest.remove_front();
            let ghost k = objs@.len();
            assert(objects_of(before).unwrap()[0] == obj@);
            objs.push(obj);
            assert forall|i: int| 0 <= i < objects_of(rest@).unwrap().len() implies #[trigger] objects_of(
                rest@,
            ).unwrap()[i] == all[objs@.len() + i] by {
                assert(objects_of(rest@).unwrap()[i] == objects_of(before).unwrap()[i + 1]);
            }
        }
        assert(rest@.len() == 0);
        objs
    }

    /// The next object of the stream: `None` once the buffer is empty,
    /// else the object at the front, which is removed.
    pub fn next(&mut self) -> (item: Option<Vec<u8>>)
        requires
            old(self)@.len() > 0 ==> front_complete(old(self)@),
        ensures
            old(self)@.len() == 0 ==> item is None && final(self)@ == old(self)@,
            old(self)@.len() > 0 ==> (item matches Some(obj) && obj@ == front_object(old(self)@)
                && final(self)@ == after_front(old(self)@)
                && final(self)@.len() == old(self)@.len() - 8 - obj@.len()),
    {
        if self.0.len() > 0 {
            Some(self.remove_front())
        } else {
            None
        }
    }
}

impl From<SizedObjectsBytes> for Vec<u8> {
    /// The bytes of the buffer.
    fn from(value: SizedObjectsBytes) -> (bytes: Vec<u8>)
        ensures
            bytes@ == value@,
    {
        value.0
    }
}

impl vstd::std_specs::convert::FromSpecImpl<SizedObjectsBytes> for Vec<u8> {
    open spec fn obeys_from_spec() -> bool {
        true
    }

    closed spec fn from_spec(v: SizedObjectsBytes) -> Vec<u8> {
        v.0
    }
}

impl From<Vec<u8>> for SizedObjectsBytes {
    /// A buffer that holds exactly `value`.
    fn from(value: Vec<u8>) -> (r: SizedObjectsBytes)
        ensures
            r@ == value@,
    {
        SizedObjectsBytes(value)
    }
}

impl vstd::std_specs::convert::FromSpecImpl<Vec<u8>> for SizedObjectsBytes {
    open spec fn obeys_from_spec() -> bool {
        true
    }

    closed spec fn from_spec(v: Vec<u8>) -> SizedObjectsBytes {
        SizedObjectsBytes(v)
    }
}

/// Turning bytes into a buffer and the buffer back into bytes gives the same
/// bytes, and a buffer made from its own bytes has the same contents.
pub proof fn lemma_conversions_round_trip(bytes: Vec<u8>, buffer: SizedObjectsBytes)
    ensures
        <Vec<u8> as vstd::std_specs::convert::FromSpec<SizedObjectsBytes>>::from_spec(
            <SizedObjectsBytes as vstd::std_specs::convert::FromSpec<Vec<u8>>>::from_spec(bytes),
        ) == bytes,
        <SizedObjectsBytes as vstd::std_specs::convert::FromSpec<Vec<u8>>>::from_spec(
            <Vec<u8> as vstd::std_specs::convert::FromSpec<SizedObjectsBytes>>::from_spec(buffer),
        ) == buffer,
{
}

} // verus!
