//! The keyframe index: parallel sequences of byte positions and timestamps,
//! serialized as the AMF0 `keyframes` object.
//!
//! Positions are byte offsets into the logical (patched) file; times are
//! milliseconds and are emitted as seconds, so each serialized time is the
//! double nearest to the timestamp divided by one thousand.
use vstd::prelude::*;

verus! {

use crate::amf0::MARKER_OBJECT;
use crate::amf0::MARKER_OBJECT_END;
use crate::amf0::amf_key_bytes;
use crate::amf0::amf_number_array_bytes;
use crate::amf0::filepositions_key;
use crate::amf0::keyframes_key;
use crate::amf0::lemma_numbers_concat_len;
use crate::amf0::object_end;
use crate::amf0::push_key;
use crate::amf0::push_number_array;
use crate::amf0::times_key;
use crate::double::double_bits_of_int;
use crate::double::double_bits_of_ms;
use crate::double::int_double_bits;
use crate::double::ms_double_bits;

/// The keyframe index.
pub struct Keyframes {
    filepositions: Vec<u64>,
    times: Vec<u32>,
    /// Added to every stored position at serialization time, to compensate
    /// for the size difference between the original and the patched
    /// metadata tag.
    pub offset: i64,
}

/// The bit patterns of the positions, each shifted by the adjustment.
pub open spec fn position_bits(positions: Seq<u64>, adjust: int) -> Seq<u64> {
    positions.map_values(|p: u64| double_bits_of_int(p + adjust))
}

/// The bit patterns of the times, each divided by one thousand.
pub open spec fn time_bits(times: Seq<u32>) -> Seq<u64> {
    times.map_values(|t: u32| double_bits_of_ms(t as nat))
}

/// The serialized `keyframes` pair, as spliced into the metadata object:
/// the key, then an anonymous object holding the `filepositions` and
/// `times` strict arrays.
pub open spec fn spec_keyframes_pair(positions: Seq<u64>, times: Seq<u32>, adjust: int) -> Seq<
    u8,
> {
    amf_key_bytes(keyframes_key()) + seq![MARKER_OBJECT] + amf_key_bytes(filepositions_key())
        + amf_number_array_bytes(position_bits(positions, adjust)) + amf_key_bytes(times_key())
        + amf_number_array_bytes(time_bits(times)) + object_end()
}

/// The serialized pair is 47 + 18 n bytes for n keyframes, whatever the
/// positions, times and adjustment: AMF0 numbers have a fixed width.
pub proof fn lemma_keyframes_pair_len(positions: Seq<u64>, times: Seq<u32>, adjust: int)
    requires
        positions.len() == times.len(),
    ensures
        spec_keyframes_pair(positions, times, adjust).len() == 47 + 18 * positions.len(),
{
    lemma_numbers_concat_len(position_bits(positions, adjust));
    lemma_numbers_concat_len(time_bits(times));
}

impl Keyframes {
    /// The stored byte positions.
    pub closed spec fn positions(&self) -> Seq<u64> {
        self.filepositions@
    }

    /// The stored timestamps, in milliseconds.
    pub closed spec fn times_ms(&self) -> Seq<u32> {
        self.times@
    }

    /// The stored adjustment, as contracts see it.
    pub closed spec fn adjust(&self) -> i64 {
        self.offset
    }

    /// The two sequences run in parallel.
    pub open spec fn wf(&self) -> bool {
        self.positions().len() == self.times_ms().len()
    }

    /// An empty index.
    pub fn new() -> (r: Keyframes)
        ensures
            r.positions() == Seq::<u64>::empty(),
            r.times_ms() == Seq::<u32>::empty(),
            r.adjust() == 0,
    {
        Keyframes { filepositions: Vec::new(), times: Vec::new(), offset: 0 }
    }

    /// The number of keyframes recorded.
    pub fn count(&self) -> (r: usize)
        requires
            self.wf(),
        ensures
            r == self.positions().len(),
    {
        self.filepositions.len()
    }

    /// Sets the serialization adjustment.
    pub fn set_offset(&mut self, v: i64)
        ensures
            final(self).positions() == old(self).positions(),
            final(self).times_ms() == old(self).times_ms(),
            final(self).adjust() == v,
    {
        self.offset = v;
    }

    /// Appends one keyframe: its byte offset and its timestamp in
    /// milliseconds.
    pub fn add(&mut self, offset: u64, time_ms: u32)
        ensures
            final(self).positions() == old(self).positions().push(offset),
            final(self).times_ms() == old(self).times_ms().push(time_ms),
            final(self).adjust() == old(self).adjust(),
    {
        self.filepositions.push(offset);
        self.times.push(time_ms);
    }

    /// Serializes the index as the AMF0 `keyframes` pair, adding the stored
    /// adjustment to every position.
    pub fn into_amf0(&self) -> (r: Vec<u8>)
        requires
            self.wf(),
            self.positions().len() <= 0xFFFF_FFFF,
            forall|i: int|
                0 <= i < self.positions().len() ==> -0x8000_0000_0000_0000 < #[trigger] (
                self.positions()[i] + self.adjust()) < 0x8000_0000_0000_0000,
        ensures
            r@ == spec_keyframes_pair(self.positions(), self.times_ms(), self.adjust() as int),
    {
        let mut pos_bits: Vec<u64> = Vec::new();
        let mut i: usize = 0;
        while i < self.filepositions.len()
            invariant
                self.wf(),
                self.positions().len() <= 0xFFFF_FFFF,
                forall|k: int|
                    0 <= k < self.positions().len() ==> -0x8000_0000_0000_0000 < #[trigger] (
                    self.positions()[k] + self.adjust()) < 0x8000_0000_0000_0000,
                i <= self.positions().len(),
                pos_bits@ == position_bits(self.positions().take(i as int), self.offset as int),
            decreases self.positions().len() - i,
        {
            proof {
                assert(-0x8000_0000_0000_0000 < self.positions()[i as int] + self.adjust()
                    < 0x8000_0000_0000_0000);
            }
            let adjusted: i128 = self.filepositions[i] as i128 + self.offset as i128;
            pos_bits.push(int_double_bits(adjusted as i64));
            i = i + 1;
            proof {
                assert(pos_bits@ =~= position_bits(
                    self.positions().take(i as int),
                    self.offset as int,
                ));
            }
        }
        let mut tm_bits: Vec<u64> = Vec::new();
        let mut j: usize = 0;
        while j < self.times.len()
            invariant
                self.wf(),
                j <= self.times_ms().len(),
                tm_bits@ == time_bits(self.times_ms().take(j as int)),
            decreases self.times_ms().len() - j,
        {
            tm_bits.push(ms_double_bits(self.times[j]));
            j = j + 1;
            proof {
                assert(tm_bits@ =~= time_bits(self.times_ms().take(j as int)));
            }
        }
        proof {
            assert(self.positions().take(self.positions().len() as int) =~= self.positions());
            assert(self.times_ms().take(self.times_ms().len() as int) =~= self.times_ms());
        }
        let kf_key: Vec<u8> = vec![0x6B, 0x65, 0x79, 0x66, 0x72, 0x61, 0x6D, 0x65, 0x73];
        let fp_key: Vec<u8> = vec![
            0x66,
            0x69,
            0x6C,
            0x65,
            0x70,
            0x6F,
            0x73,
            0x69,
            0x74,
            0x69,
            0x6F,
            0x6E,
            0x73,
        ];
        let tm_key: Vec<u8> = vec![0x74, 0x69, 0x6D, 0x65, 0x73];
        proof {
            assert(kf_key@ =~= keyframes_key());
            assert(fp_key@ =~= filepositions_key());
            assert(tm_key@ =~= times_key());
        }
        let mut out: Vec<u8> = Vec::new();
        push_key(&mut out, &kf_key);
        out.push(MARKER_OBJECT);
        push_key(&mut out, &fp_key);
        push_number_array(&mut out, &pos_bits);
        push_key(&mut out, &tm_key);
        push_number_array(&mut out, &tm_bits);
        out.push(0);
        out.push(0);
        out.push(MARKER_OBJECT_END);
        proof {
            assert(out@ =~= spec_keyframes_pair(
                self.positions(),
                self.times_ms(),
                self.offset as int,
            ));
        }
        out
    }
}

} // verus!
