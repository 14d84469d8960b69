//! The sliding-window output buffer.
//!
//! Decoded bytes are appended at the end; matches copy from what is still
//! buffered or, early in a frame, from the dictionary content. Bytes leave
//! at the front and pass through the running checksum on their way out.

use vstd::prelude::*;
use twox_hash::XxHash64;
use crate::decoding::checksum::{
    hasher_clone, hasher_finish, hasher_input, hasher_seed, hasher_total_len, hasher_with_seed,
    hasher_write, xxh64,
};
use crate::errors::DecodeError;
use crate::io::error::Error;
use crate::io::Write;

verus! {

/// The output of a frame that has not left the decoder yet, with what a
/// match may refer to and the checksum of what has left.
pub struct Decodebuffer {
    /// The decoded bytes that have not been drained yet.
    pub buffer: Vec<u8>,
    /// The content of the dictionary, which precedes the decoded bytes.
    pub dict_content: Vec<u8>,
    /// The number of trailing bytes that matches may refer to.
    pub window_size: usize,
    /// The number of bytes that have been put out since the buffer was made
    /// or reset, counted as far as a `u64` goes.
    pub total_output_counter: u64,
    /// The checksum state; every drained byte has passed through it.
    pub hash: XxHash64,
}

/// What a [`Decodebuffer`] holds, as plain values.
pub struct DecodebufferView {
    pub buffer: Seq<u8>,
    pub dict_content: Seq<u8>,
    pub window_size: usize,
    pub total_output_counter: u64,
    /// The seed of the checksum.
    pub hash_seed: u64,
    /// The bytes that have passed through the checksum.
    pub hashed: Seq<u8>,
}

impl View for Decodebuffer {
    type V = DecodebufferView;

    open spec fn view(&self) -> DecodebufferView {
        DecodebufferView {
            buffer: self.buffer@,
            dict_content: self.dict_content@,
            window_size: self.window_size,
            total_output_counter: self.total_output_counter,
            hash_seed: hasher_seed(self.hash),
            hashed: hasher_input(self.hash),
        }
    }
}

/// A buffer as `new` and `reset` leave it.
pub open spec fn spec_fresh(window_size: usize) -> DecodebufferView {
    DecodebufferView {
        buffer: Seq::empty(),
        dict_content: Seq::empty(),
        window_size,
        total_output_counter: 0,
        hash_seed: 0,
        hashed: Seq::empty(),
    }
}

/// The output counter after `amount` more bytes: it counts as far as a
/// `u64` goes and stays there.
pub open spec fn spec_counted(counter: u64, amount: nat) -> u64 {
    if counter + amount > u64::MAX {
        u64::MAX
    } else {
        (counter + amount) as u64
    }
}

/// The buffer after `data` has been appended.
pub open spec fn spec_push(b: DecodebufferView, data: Seq<u8>) -> DecodebufferView {
    DecodebufferView {
        buffer: b.buffer + data,
        total_output_counter: spec_counted(b.total_output_counter, data.len()),
        ..b
    }
}

/// `buffer` extended by a match of `length` bytes that starts `offset` bytes
/// before its end. Each new byte is the byte `offset` places before it, so a
/// match longer than its offset repeats what it has just written.
pub open spec fn spec_copy_match(buffer: Seq<u8>, offset: int, length: nat) -> Seq<u8>
    recommends
        0 < offset <= buffer.len(),
    decreases length,
{
    if length == 0 {
        buffer
    } else {
        let shorter = spec_copy_match(buffer, offset, (length - 1) as nat);
        shorter.push(shorter[shorter.len() - offset])
    }
}

/// What `repeat` does to a buffer.
///
/// A match that starts within the buffer is copied from there. One that
/// starts before it is served from the tail of the dictionary content, as
/// long as the output so far fits in the window and the dictionary reaches
/// that far back; what the dictionary cannot give is then taken from the
/// start of the buffer. Every match that succeeds is counted as output,
/// wherever its bytes come from.
pub open spec fn spec_repeat(b: DecodebufferView, offset: usize, match_length: usize) -> Result<
    DecodebufferView,
    DecodeError,
> {
    if offset <= b.buffer.len() {
        Ok(
            DecodebufferView {
                buffer: spec_copy_match(b.buffer, offset as int, match_length as nat),
                total_output_counter: spec_counted(b.total_output_counter, match_length as nat),
                ..b
            },
        )
    } else if b.total_output_counter > b.window_size || b.dict_content.len() == 0 {
        Err(DecodeError::OffsetExceedsWindow)
    } else {
        let from_dict = offset - b.buffer.len();
        let dict_len = b.dict_content.len() as int;
        if from_dict > dict_len {
            Err(DecodeError::DictionaryOffsetTooLarge)
        } else if from_dict < match_length {
            let prefixed = b.buffer + b.dict_content.subrange(dict_len - from_dict, dict_len);
            Ok(
                DecodebufferView {
                    buffer: spec_copy_match(
                        prefixed,
                        prefixed.len() as int,
                        (match_length - from_dict) as nat,
                    ),
                    total_output_counter: spec_counted(b.total_output_counter, match_length as nat),
                    ..b
                },
            )
        } else {
            Ok(
                DecodebufferView {
                    buffer: b.buffer + b.dict_content.subrange(
                        dict_len - from_dict,
                        dict_len - from_dict + match_length,
                    ),
                    total_output_counter: spec_counted(b.total_output_counter, match_length as nat),
                    ..b
                },
            )
        }
    }
}

/// The number of bytes that can leave the buffer while the window stays.
pub open spec fn spec_can_drain_to_window_size(b: DecodebufferView) -> Option<usize> {
    if b.buffer.len() > b.window_size {
        Some((b.buffer.len() - b.window_size) as usize)
    } else {
        None
    }
}

/// The buffer after its first `amount` bytes have left through the checksum.
pub open spec fn spec_drained(b: DecodebufferView, amount: int) -> DecodebufferView
    recommends
        0 <= amount <= b.buffer.len(),
{
    DecodebufferView {
        buffer: b.buffer.subrange(amount, b.buffer.len() as int),
        hashed: b.hashed + b.buffer.subrange(0, amount),
        ..b
    }
}

/// The length of `spec_copy_match` and the bytes it keeps.
pub proof fn lemma_copy_match_prefix(buffer: Seq<u8>, offset: int, length: nat)
    ensures
        spec_copy_match(buffer, offset, length).len() == buffer.len() + length,
        spec_copy_match(buffer, offset, length).subrange(0, buffer.len() as int) == buffer,
    decreases length,
{
    if length > 0 {
        lemma_copy_match_prefix(buffer, offset, (length - 1) as nat);
        let shorter = spec_copy_match(buffer, offset, (length - 1) as nat);
        let longer = spec_copy_match(buffer, offset, length);
        assert(longer.subrange(0, buffer.len() as int) =~= shorter.subrange(
            0,
            buffer.len() as int,
        ));
    } else {
        assert(buffer.subrange(0, buffer.len() as int) =~= buffer);
    }
}

impl Decodebuffer {
    /// An empty buffer without dictionary, with a checksum of seed 0 that has
    /// seen nothing.
    pub fn new(window_size: usize) -> (res: Decodebuffer)
        ensures
            res@ == spec_fresh(window_size),
    {
        Decodebuffer {
            buffer: Vec::new(),
            dict_content: Vec::new(),
            window_size,
            total_output_counter: 0,
            hash: hasher_with_seed(0),
        }
    }

    /// Makes the buffer as `new(window_size)` would.
    pub fn reset(&mut self, window_size: usize)
        ensures
            final(self)@ == spec_fresh(window_size),
    {
        self.window_size = window_size;
        self.buffer.clear();
        self.buffer.reserve(window_size);
        self.dict_content.clear();
        self.total_output_counter = 0;
        self.hash = hasher_with_seed(0);
    }

    /// Gives the buffer the dictionary content that precedes its bytes.
    pub fn set_dict_content(&mut self, content: Vec<u8>)
        ensures
            final(self)@ == (DecodebufferView { dict_content: content@, ..old(self)@ }),
    {
        self.dict_content = content;
    }

    /// The number of bytes that have been put out, as far as it is counted.
    pub fn total_output(&self) -> (res: u64)
        ensures
            res == self@.total_output_counter,
    {
        self.total_output_counter
    }

    /// The number of bytes that have passed through the checksum.
    pub fn hashed_len(&self) -> (res: u64)
        ensures
            res == self@.hashed.len(),
    {
        hasher_total_len(&self.hash)
    }

    /// The checksum that the content has if what is buffered is its end:
    /// the low 32 bits of the XXH64 digest of all bytes drained so far and
    /// all bytes still buffered.
    pub fn checksum_with_buffered(&self) -> (res: u32)
        requires
            self@.hashed.len() + self@.buffer.len() <= u64::MAX,
        ensures
            res == spec_checksum(self@.hash_seed, self@.hashed + self@.buffer),
    {
        let mut hasher = hasher_clone(&self.hash);
        hasher_write(&mut hasher, self.buffer.as_slice());
        let digest: u64 = hasher_finish(&hasher);
        (digest & 0xFFFF_FFFF) as u32
    }

    /// The number of buffered bytes.
    pub fn len(&self) -> (res: usize)
        ensures
            res == self@.buffer.len(),
    {
        self.buffer.len()
    }

    /// Whether no byte is buffered.
    pub fn is_empty(&self) -> (res: bool)
        ensures
            res <==> self@.buffer.len() == 0,
    {
        self.buffer.is_empty()
    }

    /// Appends `data` and counts it as output.
    pub fn push(&mut self, data: &[u8])
        ensures
            final(self)@ == spec_push(old(self)@, data@),
    {
        self.buffer.extend_from_slice(data);
        self.total_output_counter = self.total_output_counter.saturating_add(data.len() as u64);
        assert(self.buffer@ =~= old(self).buffer@ + data@);
    }

    /// Appends a match of `match_length` bytes that starts `offset` bytes
    /// before the end of the buffer.
    fn copy_match(&mut self, offset: usize, match_length: usize)
        requires
            0 < offset <= old(self).buffer@.len(),
        ensures
            final(self).buffer@ == spec_copy_match(
                old(self).buffer@,
                offset as int,
                match_length as nat,
            ),
            final(self).dict_content == old(self).dict_content,
            final(self).window_size == old(self).window_size,
            final(self).total_output_counter == old(self).total_output_counter,
            final(self).hash == old(self).hash,
    {
        let start_idx: usize = self.buffer.len() - offset;
        self.buffer.reserve(match_length);
        let mut x: usize = 0;
        while x < match_length
            invariant
                x <= match_length,
                0 < offset <= old(self).buffer@.len(),
                start_idx + offset == old(self).buffer@.len(),
                self.buffer@ == spec_copy_match(old(self).buffer@, offset as int, x as nat),
                self.dict_content == old(self).dict_content,
                self.window_size == old(self).window_size,
                self.total_output_counter == old(self).total_output_counter,
                self.hash == old(self).hash,
            decreases match_length - x,
        {
            proof {
                lemma_copy_match_prefix(old(self).buffer@, offset as int, x as nat);
            }
            let len: usize = self.buffer.len();
            assert(start_idx + x < len);
            let byte: u8 = self.buffer[start_idx + x];
            self.buffer.push(byte);
            x = x + 1;
        }
    }

    /// Appends `match_length` bytes copied from `offset` bytes back, as
    /// [`spec_repeat`] describes. A match that succeeds adds exactly
    /// `match_length` bytes behind what was buffered. On an error the
    /// buffer is left as it was.
    pub fn repeat(&mut self, offset: usize, match_length: usize) -> (res: Result<(), DecodeError>)
        requires
            match_length > 0 ==> offset > 0,
        ensures
            match spec_repeat(old(self)@, offset, match_length) {
                Ok(after) => res is Ok && final(self)@ == after,
                Err(e) => res == Err::<(), DecodeError>(e) && final(self)@ == old(self)@,
            },
            res is Ok ==> {
                &&& final(self)@.buffer.len() == old(self)@.buffer.len() + match_length
                &&& final(self)@.buffer.subrange(0, old(self)@.buffer.len() as int) == old(self)@.buffer
            },
    {
        proof {
            law_match_adds_its_length(old(self)@, offset, match_length);
        }
        if offset > self.buffer.len() {
            if self.total_output_counter <= self.window_size as u64 && self.dict_content.len() > 0 {
                // at least a part of the match lies in the dictionary content
                let bytes_from_dict: usize = offset - self.buffer.len();
                let dict_len: usize = self.dict_content.len();
                if bytes_from_dict > dict_len {
                    return Err(DecodeError::DictionaryOffsetTooLarge);
                }
                let low: usize = dict_len - bytes_from_dict;
                if bytes_from_dict < match_length {
                    let dict_slice = &self.dict_content[low..dict_len];
                    self.buffer.extend_from_slice(dict_slice);
                    assert(self.buffer@ =~= old(self).buffer@ + old(self).dict_content@.subrange(
                        low as int,
                        dict_len as int,
                    ));
                    self.total_output_counter = self.total_output_counter.saturating_add(
                        bytes_from_dict as u64,
                    );
                    let rest: usize = match_length - bytes_from_dict;
                    let len: usize = self.buffer.len();
                    self.copy_match(len, rest);
                    self.total_output_counter = self.total_output_counter.saturating_add(
                        rest as u64,
                    );
                } else {
                    let high: usize = low + match_length;
                    let dict_slice = &self.dict_content[low..high];
                    self.buffer.extend_from_slice(dict_slice);
                    assert(self.buffer@ =~= old(self).buffer@ + old(self).dict_content@.subrange(
                        low as int,
                        high as int,
                    ));
                    self.total_output_counter = self.total_output_counter.saturating_add(
                        match_length as u64,
                    );
                }
            } else {
                return Err(DecodeError::OffsetExceedsWindow);
            }
        } else {
            if match_length > 0 {
                self.copy_match(offset, match_length);
            }
            self.total_output_counter = self.total_output_counter.saturating_add(
                match_length as u64,
            );
        }
        Ok(())
    }

    /// The number of bytes that can be drained while the last `window_size`
    /// bytes stay; `None` if the buffer does not exceed the window.
    pub fn can_drain_to_window_size(&self) -> (res: Option<usize>)
        ensures
            res == spec_can_drain_to_window_size(self@),
    {
        if self.buffer.len() > self.window_size {
            Some(self.buffer.len() - self.window_size)
        } else {
            None
        }
    }

    /// The number of bytes that can be drained if the window need not stay.
    pub fn can_drain(&self) -> (res: usize)
        ensures
            res == self@.buffer.len(),
    {
        self.buffer.len()
    }

    /// Takes the first `amount` bytes out of the buffer, through the
    /// checksum.
    fn take_front(&mut self, amount: usize) -> (front: Vec<u8>)
        requires
            amount <= old(self)@.buffer.len(),
            old(self)@.hashed.len() + amount <= u64::MAX,
        ensures
            final(self)@ == spec_drained(old(self)@, amount as int),
            front@ == old(self)@.buffer.subrange(0, amount as int),
    {
        let mut front = self.buffer.split_off(amount);
        core::mem::swap(&mut self.buffer, &mut front);
        hasher_write(&mut self.hash, front.as_slice());
        front
    }

    /// Drains what exceeds the window: the oldest bytes, so that exactly
    /// `window_size` bytes stay. `None`, and no change, if the buffer does
    /// not exceed the window.
    pub fn drain_to_window_size(&mut self) -> (res: Option<Vec<u8>>)
        requires
            old(self)@.hashed.len() + old(self)@.buffer.len() <= u64::MAX,
        ensures
            match spec_can_drain_to_window_size(old(self)@) {
                Some(amount) => {
                    &&& final(self)@ == spec_drained(old(self)@, amount as int)
                    &&& res matches Some(drained)
                    &&& drained@ == old(self)@.buffer.subrange(0, amount as int)
                },
                None => res is None && final(self)@ == old(self)@,
            },
    {
        match self.can_drain_to_window_size() {
            None => None,
            Some(can_drain) => Some(self.take_front(can_drain)),
        }
    }

    /// Drains what exceeds the window into `sink` and returns the number of
    /// bytes drained.
    ///
    /// If nothing exceeds the window, nothing happens: the sink is not
    /// asked. Else the oldest bytes, all but a window, leave the buffer
    /// through the checksum and are given to the sink in one piece. If the
    /// sink takes them, they stand behind what it had; if it refuses them,
    /// its error is returned, and the bytes are gone from the buffer all
    /// the same.
    pub fn drain_to_window_size_writer<W: Write>(&mut self, sink: &mut W) -> (res: Result<
        usize,
        Error,
    >)
        requires
            old(self)@.hashed.len() + old(self)@.buffer.len() <= u64::MAX,
        ensures
            match spec_can_drain_to_window_size(old(self)@) {
                Some(amount) => {
                    let front = old(self)@.buffer.subrange(0, amount as int);
                    &&& final(self)@ == spec_drained(old(self)@, amount as int)
                    &&& match old(sink).refuses(front) {
                        None => {
                            &&& res == Ok::<usize, Error>(amount)
                            &&& final(sink).taken() == old(sink).taken() + front
                        },
                        Some(kind) => res matches Err(e) && e@ == kind,
                    }
                },
                None => {
                    &&& res == Ok::<usize, Error>(0)
                    &&& final(self)@ == old(self)@
                    &&& *final(sink) == *old(sink)
                },
            },
    {
        match self.can_drain_to_window_size() {
            None => Ok(0),
            Some(can_drain) => {
                let drained = self.take_front(can_drain);
                match sink.write_all(drained.as_slice()) {
                    Ok(()) => Ok(can_drain),
                    Err(e) => Err(e),
                }
            },
        }
    }

    /// Drains the buffer completely.
    pub fn drain(&mut self) -> (res: Vec<u8>)
        requires
            old(self)@.hashed.len() + old(self)@.buffer.len() <= u64::MAX,
        ensures
            final(self)@ == spec_drained(old(self)@, old(self)@.buffer.len() as int),
            res@ == old(self)@.buffer,
    {
        let len: usize = self.buffer.len();
        let all = self.take_front(len);
        assert(all@ =~= old(self)@.buffer);
        all
    }

    /// Drains the buffer completely into `sink` and returns the number of
    /// bytes drained.
    ///
    /// All buffered bytes are given to the sink in one piece. If the sink
    /// takes them, they stand behind what it had, and they leave the
    /// buffer through the checksum. If the sink refuses them, its error is
    /// returned and nothing has changed: no byte is dropped, and none has
    /// passed the checksum without leaving.
    pub fn drain_to_writer<W: Write>(&mut self, sink: &mut W) -> (res: Result<usize, Error>)
        requires
            old(self)@.hashed.len() + old(self)@.buffer.len() <= u64::MAX,
        ensures
            match old(sink).refuses(old(self)@.buffer) {
                None => {
                    &&& res == Ok::<usize, Error>(old(self)@.buffer.len() as usize)
                    &&& final(self)@ == spec_drained(old(self)@, old(self)@.buffer.len() as int)
                    &&& final(sink).taken() == old(sink).taken() + old(self)@.buffer
                },
                Some(kind) => {
                    &&& res matches Err(e) && e@ == kind
                    &&& final(self)@ == old(self)@
                },
            },
    {
        match sink.write_all(self.buffer.as_slice()) {
            Ok(()) => {},
            Err(e) => {
                return Err(e);
            },
        }
        let len: usize = self.buffer.len();
        let all = self.take_front(len);
        assert(all@ =~= old(self)@.buffer);
        Ok(len)
    }

    /// Moves the first `amount` buffered bytes to the start of `target`,
    /// through the checksum.
    fn read_front(&mut self, target: &mut [u8], amount: usize)
        requires
            amount <= old(self)@.buffer.len(),
            amount <= old(target)@.len(),
            old(self)@.hashed.len() + amount <= u64::MAX,
        ensures
            final(self)@ == spec_drained(old(self)@, amount as int),
            final(target)@ == old(self)@.buffer.subrange(0, amount as int) + old(target)@.subrange(
                amount as int,
                old(target)@.len() as int,
            ),
    {
        let front = self.take_front(amount);
        let mut i: usize = 0;
        while i < amount
            invariant
                i <= amount,
                front@.len() == amount,
                target@.len() == old(target)@.len(),
                amount <= target@.len(),
                forall|j: int| 0 <= j < i ==> target@[j] == front@[j],
                forall|j: int| i <= j < target@.len() ==> target@[j] == old(target)@[j],
            decreases amount - i,
        {
            target[i] = front[i];
            i = i + 1;
        }
        assert(target@ =~= front@ + old(target)@.subrange(amount as int, old(target)@.len() as int));
    }

    /// Fills `target` from its start with the oldest bytes that exceed the
    /// window, as many as fit, and returns their number.
    pub fn read(&mut self, target: &mut [u8]) -> (res: Result<usize, Error>)
        requires
            old(self)@.hashed.len() + old(self)@.buffer.len() <= u64::MAX,
        ensures
            res matches Ok(amount) && {
                &&& amount == spec_read_amount(
                    match spec_can_drain_to_window_size(old(self)@) {
                        Some(n) => n,
                        None => 0,
                    },
                    old(target)@.len(),
                )
                &&& final(self)@ == spec_drained(old(self)@, amount as int)
                &&& final(target)@ == old(self)@.buffer.subrange(0, amount as int) + old(
                    target,
                )@.subrange(amount as int, old(target)@.len() as int)
            },
    {
        let max_amount: usize = match self.can_drain_to_window_size() {
            Some(n) => n,
            None => 0,
        };
        let amount: usize = if max_amount > target.len() {
            target.len()
        } else {
            max_amount
        };
        self.read_front(target, amount);
        Ok(amount)
    }

    /// Fills `target` from its start with the oldest buffered bytes, as many
    /// as fit, whether they exceed the window or not, and returns their
    /// number.
    pub fn read_all(&mut self, target: &mut [u8]) -> (res: Result<usize, Error>)
        requires
            old(self)@.hashed.len() + old(self)@.buffer.len() <= u64::MAX,
        ensures
            res matches Ok(amount) && {
                &&& amount == spec_read_amount(old(self)@.buffer.len() as usize, old(target)@.len())
                &&& final(self)@ == spec_drained(old(self)@, amount as int)
                &&& final(target)@ == old(self)@.buffer.subrange(0, amount as int) + old(
                    target,
                )@.subrange(amount as int, old(target)@.len() as int)
            },
    {
        let amount: usize = if self.buffer.len() > target.len() {
            target.len()
        } else {
            self.buffer.len()
        };
        self.read_front(target, amount);
        Ok(amount)
    }

    /// The content checksum of everything drained so far: the low 32 bits of
    /// its XXH64 digest.
    pub fn calculated_checksum(&self) -> (res: u32)
        ensures
            res == spec_checksum(self@.hash_seed, self@.hashed),
    {
        let digest: u64 = hasher_finish(&self.hash);
        (digest & 0xFFFF_FFFF) as u32
    }
}

/// The number of bytes that a read moves: what is available, but no more
/// than the target holds.
pub open spec fn spec_read_amount(available: usize, target_len: nat) -> usize {
    if available > target_len {
        target_len as usize
    } else {
        available
    }
}

/// The content checksum of `data`: the low 32 bits of its XXH64 digest.
pub open spec fn spec_checksum(seed: u64, data: Seq<u8>) -> u32 {
    (xxh64(seed, data) & 0xFFFF_FFFF) as u32
}

/// Every byte of a match is the byte `offset` places before it, whether
/// that byte was there before the match or is part of the match itself.
pub proof fn law_match_repeats_at_offset(buffer: Seq<u8>, offset: int, length: nat, i: int)
    requires
        0 < offset <= buffer.len(),
        buffer.len() <= i < buffer.len() + length,
    ensures
        spec_copy_match(buffer, offset, length).len() == buffer.len() + length,
        spec_copy_match(buffer, offset, length)[i] == spec_copy_match(buffer, offset, length)[i
            - offset],
    decreases length,
{
    lemma_copy_match_prefix(buffer, offset, length);
    if length > 0 {
        let shorter = spec_copy_match(buffer, offset, (length - 1) as nat);
        lemma_copy_match_prefix(buffer, offset, (length - 1) as nat);
        if i < buffer.len() + length - 1 {
            law_match_repeats_at_offset(buffer, offset, (length - 1) as nat, i);
        }
    }
}

/// A match at offset 1 extends the buffer by copies of its last byte,
/// however long the match is.
pub proof fn law_match_at_offset_one_is_a_run(buffer: Seq<u8>, length: nat, i: int)
    requires
        buffer.len() > 0,
        buffer.len() <= i < buffer.len() + length,
    ensures
        spec_copy_match(buffer, 1, length)[i] == buffer.last(),
    decreases i,
{
    law_match_repeats_at_offset(buffer, 1, length, i);
    lemma_copy_match_prefix(buffer, 1, length);
    if i > buffer.len() {
        law_match_at_offset_one_is_a_run(buffer, length, i - 1);
    } else {
        assert(spec_copy_match(buffer, 1, length).subrange(0, buffer.len() as int)[i - 1]
            == buffer[i - 1]);
    }
}

/// A match that succeeds adds exactly its length behind what was buffered,
/// wherever its bytes come from: from the buffer, with or without overlap,
/// from the dictionary, or from both.
pub proof fn law_match_adds_its_length(b: DecodebufferView, offset: usize, match_length: usize)
    ensures
        spec_repeat(b, offset, match_length) matches Ok(after) ==> {
            &&& after.buffer.len() == b.buffer.len() + match_length
            &&& after.buffer.subrange(0, b.buffer.len() as int) == b.buffer
            &&& after.total_output_counter == spec_counted(
                b.total_output_counter,
                match_length as nat,
            )
            &&& after.dict_content == b.dict_content
            &&& after.window_size == b.window_size
            &&& after.hashed == b.hashed
        },
{
    let len = b.buffer.len() as int;
    if offset <= b.buffer.len() {
        lemma_copy_match_prefix(b.buffer, offset as int, match_length as nat);
    } else if b.total_output_counter > b.window_size || b.dict_content.len() == 0 {
    } else {
        let from_dict = offset - b.buffer.len();
        let dict_len = b.dict_content.len() as int;
        if from_dict > dict_len {
        } else if from_dict < match_length {
            let prefixed = b.buffer + b.dict_content.subrange(dict_len - from_dict, dict_len);
            let rest = (match_length - from_dict) as nat;
            lemma_copy_match_prefix(prefixed, prefixed.len() as int, rest);
            let after = spec_copy_match(prefixed, prefixed.len() as int, rest);
            assert(after.subrange(0, len) =~= after.subrange(0, prefixed.len() as int).subrange(
                0,
                len,
            ));
            assert(prefixed.subrange(0, len) =~= b.buffer);
        } else {
            let after = b.buffer + b.dict_content.subrange(
                dict_len - from_dict,
                dict_len - from_dict + match_length,
            );
            assert(after.subrange(0, len) =~= b.buffer);
        }
    }
}

/// A match fails exactly when it starts before the buffer and either more
/// than a window has been put out or the dictionary does not reach that
/// far back; it is then `OffsetExceedsWindow` if the dictionary is out of
/// reach or empty, and `DictionaryOffsetTooLarge` if it is too short.
pub proof fn law_match_fails_exactly_when(b: DecodebufferView, offset: usize, match_length: usize)
    ensures
        spec_repeat(b, offset, match_length) is Err <==> offset > b.buffer.len() && (
        b.total_output_counter > b.window_size || offset - b.buffer.len() > b.dict_content.len()),
        spec_repeat(b, offset, match_length) matches Err(e) ==> e == if b.total_output_counter
            > b.window_size || b.dict_content.len() == 0 {
            DecodeError::OffsetExceedsWindow
        } else {
            DecodeError::DictionaryOffsetTooLarge
        },
{
}

/// The dictionary is out of reach as soon as more than a window has been
/// put out, whatever has put it out: a match that the dictionary has
/// served counts like any other.
pub proof fn law_dictionary_match_is_counted(b: DecodebufferView, offset: usize, match_length: usize)
    requires
        offset > b.buffer.len(),
        b.total_output_counter + match_length > b.window_size,
        b.total_output_counter + match_length <= u64::MAX,
        spec_repeat(b, offset, match_length) is Ok,
    ensures
        ({
            let after = spec_repeat(b, offset, match_length)->Ok_0;
            forall|further: usize, length: usize|
                further > after.buffer.len() ==> #[trigger] spec_repeat(after, further, length)
                    == Err::<DecodebufferView, DecodeError>(DecodeError::OffsetExceedsWindow)
        }),
{
    law_match_adds_its_length(b, offset, match_length);
}

/// A buffer that holds exactly its window, in a frame that has put out
/// more than a window, serves a match at the distance of the window and
/// refuses one a byte further back.
pub proof fn law_window_is_the_farthest_offset(b: DecodebufferView, match_length: usize)
    requires
        b.buffer.len() == b.window_size,
        b.total_output_counter > b.window_size,
    ensures
        spec_repeat(b, b.window_size, match_length) is Ok,
        b.window_size < usize::MAX ==> spec_repeat(b, (b.window_size + 1) as usize, match_length)
            == Err::<DecodebufferView, DecodeError>(DecodeError::OffsetExceedsWindow),
{
}

/// A match that starts before the buffer is served by the dictionary as
/// long as the frame has put out no more than a window and the dictionary
/// reaches that far back.
pub proof fn law_dictionary_serves_the_first_window(b: DecodebufferView, offset: usize, match_length: usize)
    requires
        offset > b.buffer.len(),
        b.total_output_counter <= b.window_size,
        0 < offset - b.buffer.len() <= b.dict_content.len(),
    ensures
        spec_repeat(b, offset, match_length) is Ok,
{
}

/// What drains to the window leaves exactly a window behind.
pub proof fn law_windowed_drain_keeps_the_window(b: DecodebufferView)
    requires
        b.buffer.len() <= usize::MAX,
        spec_can_drain_to_window_size(b) is Some,
    ensures
        spec_drained(b, spec_can_drain_to_window_size(b)->0 as int).buffer.len() == b.window_size,
{
}

/// Appending in two parts is appending the whole.
pub proof fn law_push_in_parts(b: DecodebufferView, first: Seq<u8>, second: Seq<u8>)
    ensures
        spec_push(spec_push(b, first), second) == spec_push(b, first + second),
{
    assert((b.buffer + first) + second =~= b.buffer + (first + second));
}

/// Draining in two steps puts the same bytes through the checksum, in the
/// same order, as draining at once: the checksum of the output does not
/// depend on how the output is taken out.
pub proof fn law_drain_in_parts(b: DecodebufferView, first: int, second: int)
    requires
        0 <= first,
        0 <= second,
        first + second <= b.buffer.len(),
    ensures
        spec_drained(spec_drained(b, first), second) == spec_drained(b, first + second),
        spec_drained(b, first + second).hashed + spec_drained(b, first + second).buffer
            == b.hashed + b.buffer,
{
    let once = spec_drained(b, first + second);
    let twice = spec_drained(spec_drained(b, first), second);
    assert(once.buffer =~= twice.buffer);
    assert(once.hashed =~= twice.hashed);
    assert(once.hashed + once.buffer =~= b.hashed + b.buffer);
}

} // verus!
