//! Container parsing and sample decoding for the canonical PCM layout: a
//! fixed 44-byte header (no intervening chunks) followed by the raw sample
//! byte region.

use vstd::prelude::*;

verus! {

use crate::FormatError;

// --- mathematical model of the little-endian fields ---

/// Value of the two bytes at `i` read as a little-endian u16.
pub open spec fn u16_le(s: Seq<u8>, i: int) -> int {
    s[i] + 0x100 * s[i + 1]
}

/// Value of the four bytes at `i` read as a little-endian u32.
pub open spec fn u32_le(s: Seq<u8>, i: int) -> int {
    s[i] + 0x100 * s[i + 1] + 0x1_0000 * s[i + 2] + 0x100_0000 * s[i + 3]
}

/// The container tag, the ASCII bytes of "RIFF".
pub open spec fn riff_tag() -> Seq<u8> {
    seq![0x52u8, 0x49u8, 0x46u8, 0x46u8]
}

/// The format tag, the ASCII bytes of "WAVE".
pub open spec fn wave_tag() -> Seq<u8> {
    seq![0x57u8, 0x41u8, 0x56u8, 0x45u8]
}

/// The format sub-chunk tag, the ASCII bytes of "fmt ".
pub open spec fn fmt_tag() -> Seq<u8> {
    seq![0x66u8, 0x6du8, 0x74u8, 0x20u8]
}

/// The data sub-chunk tag, the ASCII bytes of "data".
pub open spec fn data_tag() -> Seq<u8> {
    seq![0x64u8, 0x61u8, 0x74u8, 0x61u8]
}

/// Declared size of the raw sample byte region, at offset 40.
pub open spec fn spec_data_size(s: Seq<u8>) -> int {
    u32_le(s, 40)
}

/// Declared bit depth, at offset 34.
pub open spec fn spec_bits_per_sample(s: Seq<u8>) -> int {
    u16_le(s, 34)
}

// --- trusted access to the little-endian reads of the byteorder crate ---

/// Relies on byteorder's `LittleEndian::read_u16`: the two bytes starting at
/// `off`, least-significant byte first; it panics only on a buffer shorter
/// than two bytes.
#[verifier::external_body]
fn read_u16_at(bytes: &Vec<u8>, off: usize) -> (r: u16)
    requires
        off + 2 <= bytes@.len(),
    ensures
        r as int == u16_le(bytes@, off as int),
{
    <byteorder::LittleEndian as byteorder::ByteOrder>::read_u16(&bytes[off..])
}

/// Relies on byteorder's `LittleEndian::read_u32`: the four bytes starting at
/// `off`, least-significant byte first; it panics only on a buffer shorter
/// than four bytes.
#[verifier::external_body]
fn read_u32_at(bytes: &Vec<u8>, off: usize) -> (r: u32)
    requires
        off + 4 <= bytes@.len(),
    ensures
        r as int == u32_le(bytes@, off as int),
{
    <byteorder::LittleEndian as byteorder::ByteOrder>::read_u32(&bytes[off..])
}

// --- the container ---

/// Format sub-chunk: the canonical PCM description at bytes 12..36.
#[derive(Debug)]
pub struct WaveFmtChunk {
    /// Tag field, the ASCII bytes of "fmt ".
    pub id: [u8; 4],
    /// Declared sub-chunk size; 16 for the canonical PCM layout.
    pub size: u32,
    /// Audio format code; 1 for uncompressed PCM.
    pub audio_fmt: u16,
    pub num_channels: u16,
    pub sample_rate: u32,
    pub byte_rate: u32,
    pub blk_align: u16,
    pub bits_per_sample: u16,
}

/// Data sub-chunk: its 8-byte header at bytes 36..44 plus the raw sample
/// byte region.
#[derive(Debug)]
pub struct WaveData {
    /// Tag field, the ASCII bytes of "data".
    pub id: [u8; 4],
    /// Declared size of the raw sample byte region.
    pub size: u32,
    /// The raw sample bytes, exactly `size` of them.
    pub data: Vec<u8>,
}

/// A decoded container: the fixed 44-byte header plus the raw sample bytes.
#[derive(Debug)]
pub struct WaveForm {
    /// Container tag, the ASCII bytes of "RIFF".
    pub riff: [u8; 4],
    /// Declared size of everything that follows the first eight bytes.
    pub chunk_size: u32,
    /// Format tag, the ASCII bytes of "WAVE".
    pub fmt: [u8; 4],
    pub fmt_ck: WaveFmtChunk,
    pub wave_data: WaveData,
}

impl WaveForm {
    /// The container holds exactly the fields laid out in the byte buffer.
    pub open spec fn models(self, s: Seq<u8>) -> bool {
        &&& self.riff@ == s.subrange(0, 4)
        &&& self.chunk_size as int == u32_le(s, 4)
        &&& self.fmt@ == s.subrange(8, 12)
        &&& self.fmt_ck.id@ == s.subrange(12, 16)
        &&& self.fmt_ck.size as int == u32_le(s, 16)
        &&& self.fmt_ck.audio_fmt as int == u16_le(s, 20)
        &&& self.fmt_ck.num_channels as int == u16_le(s, 22)
        &&& self.fmt_ck.sample_rate as int == u32_le(s, 24)
        &&& self.fmt_ck.byte_rate as int == u32_le(s, 28)
        &&& self.fmt_ck.blk_align as int == u16_le(s, 32)
        &&& self.fmt_ck.bits_per_sample as int == spec_bits_per_sample(s)
        &&& self.wave_data.id@ == s.subrange(36, 40)
        &&& self.wave_data.size as int == spec_data_size(s)
        &&& self.wave_data.data@ == s.subrange(44, 44 + spec_data_size(s))
    }

    /// Invariants of a successfully parsed container: every tag equals its
    /// required literal, the layout is canonical PCM, and the declared data
    /// size equals the length of the raw byte region.
    pub open spec fn wf(self) -> bool {
        &&& self.riff@ == riff_tag()
        &&& self.fmt@ == wave_tag()
        &&& self.fmt_ck.id@ == fmt_tag()
        &&& self.fmt_ck.size == 16
        &&& self.fmt_ck.audio_fmt == 1
        &&& self.fmt_ck.bits_per_sample == 8 || self.fmt_ck.bits_per_sample == 16
        &&& self.wave_data.id@ == data_tag()
        &&& self.wave_data.size as int == self.wave_data.data@.len()
    }
}

/// Copies the four tag bytes that start at `off`.
fn tag_at(bytes: &Vec<u8>, off: usize) -> (t: [u8; 4])
    requires
        off + 4 <= bytes@.len(),
    ensures
        t@ == bytes@.subrange(off as int, off + 4),
{
    let _n: usize = bytes.len();  // the buffer length fits in usize
    let t: [u8; 4] = [bytes[off], bytes[off + 1], bytes[off + 2], bytes[off + 3]];
    proof {
        assert(t@ =~= bytes@.subrange(off as int, off as int + 4));
    }
    t
}

impl WaveFmtChunk {
    /// Reads the format sub-chunk fields that start at byte `off`.
    fn new(bytes: &Vec<u8>, off: usize) -> (c: Self)
        requires
            off + 24 <= bytes@.len(),
        ensures
            c.id@ == bytes@.subrange(off as int, off + 4),
            c.size as int == u32_le(bytes@, off + 4),
            c.audio_fmt as int == u16_le(bytes@, off + 8),
            c.num_channels as int == u16_le(bytes@, off + 10),
            c.sample_rate as int == u32_le(bytes@, off + 12),
            c.byte_rate as int == u32_le(bytes@, off + 16),
            c.blk_align as int == u16_le(bytes@, off + 20),
            c.bits_per_sample as int == u16_le(bytes@, off + 22),
    {
        let _n: usize = bytes.len();  // the buffer length fits in usize
        WaveFmtChunk {
            id: tag_at(bytes, off),
            size: read_u32_at(bytes, off + 4),
            audio_fmt: read_u16_at(bytes, off + 8),
            num_channels: read_u16_at(bytes, off + 10),
            sample_rate: read_u32_at(bytes, off + 12),
            byte_rate: read_u32_at(bytes, off + 16),
            blk_align: read_u16_at(bytes, off + 20),
            bits_per_sample: read_u16_at(bytes, off + 22),
        }
    }
}

impl WaveData {
    /// Reads the data sub-chunk header at `off` and copies the declared
    /// number of raw sample bytes that follow it.
    fn new(bytes: &Vec<u8>, off: usize) -> (d: Self)
        requires
            off + 8 <= bytes@.len(),
            off + 8 + u32_le(bytes@, off + 4) <= bytes@.len(),
        ensures
            d.id@ == bytes@.subrange(off as int, off + 4),
            d.size as int == u32_le(bytes@, off + 4),
            d.data@ == bytes@.subrange(off + 8, off + 8 + u32_le(bytes@, off + 4)),
    {
        let _n: usize = bytes.len();  // the buffer length fits in usize
        let id = tag_at(bytes, off);
        let size = read_u32_at(bytes, off + 4);
        let count: usize = size as usize;
        let mut data: Vec<u8> = Vec::new();
        let mut i: usize = 0;
        while i < count
            invariant
                i <= count,
                count == u32_le(bytes@, off as int + 4),
                off + 8 + count <= bytes@.len(),
                data@ =~= bytes@.subrange(off as int + 8, off + 8 + i as int),
            decreases count - i,
        {
            data.push(bytes[off + 8 + i]);
            i += 1;
        }
        WaveData { id, size, data }
    }
}

impl WaveForm {
    /// Reads every fixed-offset header field and the raw sample bytes; the
    /// caller has already bounds-checked the buffer.
    fn new(file_contents: &Vec<u8>) -> (w: Self)
        requires
            file_contents@.len() >= 44,
            44 + spec_data_size(file_contents@) <= file_contents@.len(),
        ensures
            w.models(file_contents@),
    {
        WaveForm {
            riff: tag_at(file_contents, 0),
            chunk_size: read_u32_at(file_contents, 4),
            fmt: tag_at(file_contents, 8),
            fmt_ck: WaveFmtChunk::new(file_contents, 12),
            wave_data: WaveData::new(file_contents, 36),
        }
    }
}

// --- validation ---

/// Standalone check of the three leading tag fields.
pub fn check_wav_file_format(file_contents: &Vec<u8>) -> (r: Result<(), FormatError>)
    ensures
        r is Ok <==> {
            &&& file_contents@.len() >= 16
            &&& file_contents@.subrange(0, 4) == riff_tag()
            &&& file_contents@.subrange(8, 12) == wave_tag()
            &&& file_contents@.subrange(12, 16) == fmt_tag()
        },
        r matches Err(e) ==> if file_contents@.len() < 16 {
            e is Truncated
        } else {
            e is InvalidHeader
        },
{
    if file_contents.len() < 16 {
        return Err(FormatError::Truncated);
    }
    let riff_ok = file_contents[0] == 0x52 && file_contents[1] == 0x49
        && file_contents[2] == 0x46 && file_contents[3] == 0x46;
    let wave_ok = file_contents[8] == 0x57 && file_contents[9] == 0x41
        && file_contents[10] == 0x56 && file_contents[11] == 0x45;
    let fmt_ok = file_contents[12] == 0x66 && file_contents[13] == 0x6d
        && file_contents[14] == 0x74 && file_contents[15] == 0x20;
    if riff_ok && wave_ok && fmt_ok {
        proof {
            assert(file_contents@.subrange(0, 4) =~= riff_tag());
            assert(file_contents@.subrange(8, 12) =~= wave_tag());
            assert(file_contents@.subrange(12, 16) =~= fmt_tag());
        }
        Ok(())
    } else {
        Err(FormatError::InvalidHeader)
    }
}

/// A byte buffer is well formed when it holds a complete canonical PCM
/// container: the full 44-byte header, every tag equal to its required
/// literal, the canonical PCM format description, and at least as many bytes
/// after the header as the declared data size.
pub open spec fn well_formed(s: Seq<u8>) -> bool {
    &&& s.len() >= 44
    &&& s.subrange(0, 4) == riff_tag()
    &&& s.subrange(8, 12) == wave_tag()
    &&& s.subrange(12, 16) == fmt_tag()
    &&& u32_le(s, 16) == 16
    &&& u16_le(s, 20) == 1
    &&& spec_bits_per_sample(s) == 8 || spec_bits_per_sample(s) == 16
    &&& s.subrange(36, 40) == data_tag()
    &&& 44 + spec_data_size(s) <= s.len()
}

/// The first validation step that a buffer fails, in the order the fields
/// are laid out, or `None` for a well-formed buffer.
pub open spec fn parse_failure(s: Seq<u8>) -> Option<FormatError> {
    if s.len() < 44 {
        Some(FormatError::Truncated)
    } else if s.subrange(0, 4) != riff_tag() || s.subrange(8, 12) != wave_tag()
        || s.subrange(12, 16) != fmt_tag() {
        Some(FormatError::InvalidHeader)
    } else if u32_le(s, 16) != 16 {
        Some(FormatError::UnsupportedEncoding)
    } else if u16_le(s, 20) != 1 {
        Some(FormatError::UnsupportedEncoding)
    } else if spec_bits_per_sample(s) != 8 && spec_bits_per_sample(s) != 16 {
        Some(FormatError::UnsupportedEncoding)
    } else if s.subrange(36, 40) != data_tag() {
        Some(FormatError::InvalidHeader)
    } else if s.len() < 44 + spec_data_size(s) {
        Some(FormatError::Truncated)
    } else {
        None
    }
}

/// A buffer passes every validation step exactly when it is well formed.
pub proof fn lemma_well_formed_no_failure(s: Seq<u8>)
    ensures
        well_formed(s) <==> parse_failure(s) is None,
{
}

/// Validates and decodes a raw byte buffer into a structured container.
///
/// Succeeds exactly on well-formed buffers; a rejected buffer is answered
/// with the error of the first field-order validation step it fails, and a
/// produced container holds exactly the fields laid out in the buffer.
pub fn parse(bytes: &Vec<u8>) -> (r: Result<WaveForm, FormatError>)
    ensures
        r is Ok <==> well_formed(bytes@),
        r matches Ok(w) ==> w.models(bytes@) && w.wf()
            && w.wave_data.size as int == w.wave_data.data@.len(),
        r matches Err(e) ==> parse_failure(bytes@) == Some(e),
        bytes@.len() < 44 ==> (r matches Err(e) && e is Truncated),
{
    if bytes.len() < 44 {
        return Err(FormatError::Truncated);
    }
    match check_wav_file_format(bytes) {
        Ok(()) => {}
        Err(e) => {
            return Err(e);
        }
    }
    let fmt_size = read_u32_at(bytes, 16);
    if fmt_size != 16 {
        return Err(FormatError::UnsupportedEncoding);
    }
    let audio_fmt = read_u16_at(bytes, 20);
    if audio_fmt != 1 {
        return Err(FormatError::UnsupportedEncoding);
    }
    let bits = read_u16_at(bytes, 34);
    if bits != 8 && bits != 16 {
        return Err(FormatError::UnsupportedEncoding);
    }
    let data_ok = bytes[36] == 0x64 && bytes[37] == 0x61 && bytes[38] == 0x74
        && bytes[39] == 0x61;
    if !data_ok {
        return Err(FormatError::InvalidHeader);
    }
    proof {
        assert(bytes@.subrange(36, 40) =~= data_tag());
    }
    let data_size = read_u32_at(bytes, 40);
    if bytes.len() - 44 < data_size as usize {
        return Err(FormatError::Truncated);
    }
    Ok(WaveForm::new(bytes))
}

// --- sample decoding ---

/// Ordered numeric samples, one per channel-interleaved frame slot, in
/// source order.
#[derive(Debug)]
pub struct SampleSequence {
    pub samples: Vec<u16>,
}

/// Converts a container's raw sample bytes into a numeric sample sequence
/// according to the declared bit depth: each byte is one sample at depth 8,
/// each little-endian byte pair is one sample at depth 16, and any other
/// depth is rejected.
pub fn decode(container: &WaveForm) -> (r: Result<SampleSequence, FormatError>)
    ensures
        container.fmt_ck.bits_per_sample == 8 ==> (r matches Ok(sq)
            && sq.samples@.len() == container.wave_data.data@.len()
            && forall|i: int| 0 <= i < sq.samples@.len()
                ==> sq.samples@[i] == container.wave_data.data@[i] as u16),
        container.fmt_ck.bits_per_sample == 16 ==> (r matches Ok(sq)
            && sq.samples@.len() == container.wave_data.data@.len() / 2
            && forall|i: int| 0 <= i < sq.samples@.len()
                ==> sq.samples@[i] as int == u16_le(container.wave_data.data@, 2 * i)),
        container.fmt_ck.bits_per_sample != 8 && container.fmt_ck.bits_per_sample != 16
            ==> (r matches Err(e) && e is UnsupportedEncoding),
{
    let data = &container.wave_data.data;
    let n: usize = data.len();
    if container.fmt_ck.bits_per_sample == 8 {
        let mut samples: Vec<u16> = Vec::new();
        let mut i: usize = 0;
        while i < n
            invariant
                i <= n,
                samples@.len() == i,
                forall|t: int| 0 <= t < i ==> samples@[t] == data@[t] as u16,
            decreases n - i,
        {
            samples.push(data[i] as u16);
            i += 1;
        }
        Ok(SampleSequence { samples })
    } else if container.fmt_ck.bits_per_sample == 16 {
        let count: usize = n / 2;
        let mut samples: Vec<u16> = Vec::new();
        let mut i: usize = 0;
        while i < count
            invariant
                i <= count,
                samples@.len() == i,
                forall|t: int| 0 <= t < i ==> samples@[t] as int == u16_le(data@, 2 * t),
            decreases count - i,
        {
            samples.push(read_u16_at(data, 2 * i));
            i += 1;
        }
        Ok(SampleSequence { samples })
    } else {
        Err(FormatError::UnsupportedEncoding)
    }
}

} // verus!
