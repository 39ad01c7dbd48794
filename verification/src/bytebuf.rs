//! A growable byte buffer with a read cursor.
//!
//! Bytes are appended at the end and read from the cursor. One position can
//! be marked and returned to later, and the bytes in front of the cursor can
//! be dropped so that the unread rest starts at offset zero.

use crate::varint::{read_var_int, spec_read_var_int, spec_var_int, write_var_int, VarIntError};
use vstd::prelude::*;

verus! {

/// What a buffer holds: every byte in it, read or not, the read cursor and
/// the marked position.
pub struct ByteBufView {
    pub bytes: Seq<u8>,
    pub read_pos: nat,
    pub mark: nat,
}

impl ByteBufView {
    /// Both positions lie within the bytes.
    pub open spec fn wf(self) -> bool {
        self.read_pos <= self.bytes.len() && self.mark <= self.bytes.len()
    }

    /// The bytes from the cursor to the end.
    pub open spec fn unread(self) -> Seq<u8> {
        self.bytes.skip(self.read_pos as int)
    }
}

/// A contiguous byte buffer with a read cursor and one marked position.
#[derive(Debug)]
pub struct ByteBuf {
    inner: Vec<u8>,
    read_pos: usize,
    marked: usize,
}

impl View for ByteBuf {
    type V = ByteBufView;

    closed spec fn view(&self) -> ByteBufView {
        ByteBufView { bytes: self.inner@, read_pos: self.read_pos as nat, mark: self.marked as nat }
    }
}

impl ByteBuf {
    /// Both positions lie within the bytes. Every buffer that this module
    /// hands out is well formed, and every method keeps it so.
    pub open spec fn wf(&self) -> bool {
        self@.wf()
    }

    /// An empty buffer.
    pub fn new() -> (buf: ByteBuf)
        ensures
            buf@ == (ByteBufView { bytes: Seq::empty(), read_pos: 0, mark: 0 }),
            buf.wf(),
    {
        ByteBuf { inner: Vec::new(), read_pos: 0, marked: 0 }
    }

    /// An empty buffer with room for `capacity` bytes.
    pub fn with_capacity(capacity: usize) -> (buf: ByteBuf)
        ensures
            buf@ == (ByteBufView { bytes: Seq::empty(), read_pos: 0, mark: 0 }),
            buf.wf(),
    {
        ByteBuf { inner: Vec::with_capacity(capacity), read_pos: 0, marked: 0 }
    }

    /// A buffer that holds `bytes`, all of them unread.
    pub fn from_vec(bytes: Vec<u8>) -> (buf: ByteBuf)
        ensures
            buf@ == (ByteBufView { bytes: bytes@, read_pos: 0, mark: 0 }),
            buf.wf(),
    {
        ByteBuf { inner: bytes, read_pos: 0, marked: 0 }
    }

    /// The number of bytes held, read or not.
    pub fn len(&self) -> (n: usize)
        ensures
            n == self@.bytes.len(),
    {
        self.inner.len()
    }

    /// The number of unread bytes.
    pub fn remaining(&self) -> (n: usize)
        requires
            self.wf(),
        ensures
            n == self@.unread().len(),
            n == self@.bytes.len() - self@.read_pos,
    {
        self.inner.len() - self.read_pos
    }

    /// The position of the read cursor.
    pub fn read_pos(&self) -> (pos: usize)
        requires
            self.wf(),
        ensures
            pos == self@.read_pos,
            pos <= self@.bytes.len(),
    {
        self.read_pos
    }

    /// The position that was marked last.
    pub fn marked_read_position(&self) -> (pos: usize)
        requires
            self.wf(),
        ensures
            pos == self@.mark,
            pos <= self@.bytes.len(),
    {
        self.marked
    }

    /// Marks the position of the read cursor.
    pub fn mark_read_position(&mut self)
        requires
            old(self).wf(),
        ensures
            final(self)@ == (ByteBufView { mark: old(self)@.read_pos, ..old(self)@ }),
            final(self).wf(),
    {
        self.marked = self.read_pos;
    }

    /// Moves the read cursor back to the marked position.
    pub fn reset_read_position(&mut self)
        requires
            old(self).wf(),
        ensures
            final(self)@ == (ByteBufView { read_pos: old(self)@.mark, ..old(self)@ }),
            final(self).wf(),
    {
        self.read_pos = self.marked;
    }

    /// Moves the read cursor `count` bytes on.
    pub fn advance(&mut self, count: usize)
        requires
            old(self).wf(),
            count <= old(self)@.unread().len(),
        ensures
            final(self)@ == (ByteBufView {
                read_pos: old(self)@.read_pos + count as nat,
                ..old(self)@
            }),
            final(self).wf(),
    {
        assert(self@.unread().len() == self.inner.len() - self.read_pos);
        self.read_pos = self.read_pos + count;
    }

    /// Drops the bytes in front of the read cursor. The unread bytes then
    /// start at offset zero, and the mark is at zero too.
    pub fn remove_prior(&mut self)
        requires
            old(self).wf(),
        ensures
            final(self)@ == (ByteBufView { bytes: old(self)@.unread(), read_pos: 0, mark: 0 }),
            final(self).wf(),
    {
        let rest = self.inner.split_off(self.read_pos);
        *self = ByteBuf { inner: rest, read_pos: 0, marked: 0 };
    }

    /// The unread bytes.
    pub fn inner(&self) -> (unread: &[u8])
        requires
            self.wf(),
        ensures
            unread@ == self@.unread(),
    {
        let all = self.inner.as_slice();
        &all[self.read_pos..all.len()]
    }

    /// Appends one byte.
    pub fn put_u8(&mut self, byte: u8)
        requires
            old(self).wf(),
        ensures
            final(self)@ == (ByteBufView { bytes: old(self)@.bytes.push(byte), ..old(self)@ }),
            final(self).wf(),
    {
        self.inner.push(byte);
    }

    /// Appends `data`.
    pub fn put(&mut self, data: &[u8])
        requires
            old(self).wf(),
        ensures
            final(self)@ == (ByteBufView { bytes: old(self)@.bytes + data@, ..old(self)@ }),
            final(self).wf(),
    {
        let ghost before = self.inner@;
        let mut i: usize = 0;
        while i < data.len()
            invariant
                i <= data.len(),
                self.inner@ == before + data@.take(i as int),
                self.read_pos == old(self).read_pos,
                self.marked == old(self).marked,
                old(self).wf(),
                before == old(self).inner@,
            decreases data.len() - i,
        {
            self.inner.push(data[i]);
            assert(data@.take(i + 1) =~= data@.take(i as int).push(data@[i as int]));
            i = i + 1;
        }
        assert(data@.take(data.len() as int) =~= data@);
    }

    /// Appends the bytes of the VarInt `value`.
    pub fn write_var_int(&mut self, value: i32)
        requires
            old(self).wf(),
        ensures
            final(self)@ == (ByteBufView {
                bytes: old(self)@.bytes + spec_var_int(value),
                ..old(self)@
            }),
            final(self).wf(),
    {
        write_var_int(value, &mut self.inner);
    }

    /// Reads a VarInt at the read cursor.
    ///
    /// On success the cursor stands behind the number. On failure it has not
    /// moved.
    pub fn read_var_int(&mut self) -> (r: Result<i32, VarIntError>)
        requires
            old(self).wf(),
        ensures
            final(self).wf(),
            match spec_read_var_int(old(self)@.unread()) {
                Ok((value, len)) => r == Ok::<i32, VarIntError>(value) && final(self)@ == (
                ByteBufView { read_pos: old(self)@.read_pos + len as nat, ..old(self)@ }),
                Err(e) => r == Err::<i32, VarIntError>(e) && final(self)@ == old(self)@,
            },
    {
        proof {
            crate::varint::lemma_read_var_int_bounds(self@.unread());
        }
        match read_var_int(self.inner()) {
            Ok((value, len)) => {
                assert(self@.unread().len() == self.inner.len() - self.read_pos);
                self.read_pos = self.read_pos + len;
                Ok(value)
            },
            Err(e) => Err(e),
        }
    }

    /// The unread bytes, copied out.
    pub fn to_vec(&self) -> (bytes: Vec<u8>)
        requires
            self.wf(),
        ensures
            bytes@ == self@.unread(),
    {
        let unread = self.inner();
        let mut bytes: Vec<u8> = Vec::new();
        let mut i: usize = 0;
        while i < unread.len()
            invariant
                i <= unread.len(),
                bytes@ == unread@.take(i as int),
            decreases unread.len() - i,
        {
            bytes.push(unread[i]);
            assert(unread@.take(i + 1) =~= unread@.take(i as int).push(unread@[i as int]));
            i = i + 1;
        }
        assert(unread@.take(unread.len() as int) =~= unread@);
        bytes
    }
}

} // verus!
