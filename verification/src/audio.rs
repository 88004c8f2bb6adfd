//! Decoded audio assets, the cache that holds them, the conversion of
//! integer PCM to the engine's sample scale, and the waveform overview.

use crate::units::UNIT;
use crate::voice::share_pcm;
use std::sync::Arc;
use vstd::prelude::*;

verus! {

/// A decoded audio file: interleaved PCM in millionths of full scale, shared
/// by every voice that plays it.
#[derive(Debug)]
pub struct AudioAsset {
    pub pcm: Arc<Vec<i32>>,
    pub sample_rate: u32,
    pub channels: u16,
    pub frames: u64,
    pub file_name: String,
}

impl Clone for AudioAsset {
    /// Another handle on the same PCM.
    fn clone(&self) -> (r: Self)
        ensures
            r == *self,
    {
        AudioAsset {
            pcm: share_pcm(&self.pcm),
            sample_rate: self.sample_rate,
            channels: self.channels,
            frames: self.frames,
            file_name: self.file_name.clone(),
        }
    }
}

/// The lowest and the highest sample of each bucket of an asset's PCM.
#[derive(Debug)]
pub struct WaveformAnalysis {
    pub min_max_buckets: Vec<(i32, i32)>,
    pub sample_rate: u32,
}

impl Clone for WaveformAnalysis {
    fn clone(&self) -> (r: Self)
        ensures
            r.min_max_buckets@ == self.min_max_buckets@,
            r.sample_rate == self.sample_rate,
    {
        let mut buckets: Vec<(i32, i32)> = Vec::with_capacity(self.min_max_buckets.len());
        let mut i: usize = 0;
        while i < self.min_max_buckets.len()
            invariant
                i <= self.min_max_buckets@.len(),
                buckets@ == self.min_max_buckets@.take(i as int),
            decreases self.min_max_buckets@.len() - i,
        {
            buckets.push(self.min_max_buckets[i]);
            assert(buckets@ =~= self.min_max_buckets@.take(i + 1));
            i += 1;
        }
        assert(self.min_max_buckets@.take(i as int) =~= self.min_max_buckets@);
        WaveformAnalysis { min_max_buckets: buckets, sample_rate: self.sample_rate }
    }
}

/// `value` out of `full_scale` as a sample in millionths, rounded toward zero.
pub open spec fn normalized(value: int, full_scale: int) -> int {
    if value >= 0 {
        (value * UNIT) / full_scale
    } else {
        -(((-value) * UNIT) / full_scale)
    }
}

/// Scales `value` out of `full_scale` to millionths.
fn normalize(value: i64, full_scale: i64) -> (r: i64)
    requires
        0 < full_scale,
        -0x2_0000_0000 <= value <= 0x2_0000_0000,
    ensures
        r == normalized(value as int, full_scale as int),
        -0x2_0000_0000 * 1_000_000 <= r <= 0x2_0000_0000 * 1_000_000,
{
    if value >= 0 {
        assert(0 <= value * UNIT <= 0x2_0000_0000 * 1_000_000) by (nonlinear_arith)
            requires
                0 <= value <= 0x2_0000_0000,
                UNIT == 1_000_000,
        ;
        proof {
            vstd::arithmetic::div_mod::lemma_div_pos_is_pos(value * UNIT, full_scale as int);
            vstd::arithmetic::div_mod::lemma_div_is_ordered_by_denominator(
                value * UNIT,
                1,
                full_scale as int,
            );
        }
        (value * (UNIT as i64)) / full_scale
    } else {
        let magnitude: i64 = -value;
        assert(0 <= magnitude * UNIT <= 0x2_0000_0000 * 1_000_000) by (nonlinear_arith)
            requires
                0 <= magnitude <= 0x2_0000_0000,
                UNIT == 1_000_000,
        ;
        proof {
            vstd::arithmetic::div_mod::lemma_div_pos_is_pos(magnitude * UNIT, full_scale as int);
            vstd::arithmetic::div_mod::lemma_div_is_ordered_by_denominator(
                magnitude * UNIT,
                1,
                full_scale as int,
            );
        }
        -((magnitude * (UNIT as i64)) / full_scale)
    }
}

/// An unsigned 8-bit sample: `v / 127.5 - 1`.
pub fn sample_from_u8(v: u8) -> (r: i32)
    ensures
        r == normalized(2 * v - 255, 255),
        -(UNIT as int) <= r <= UNIT,
{
    normalize(2 * (v as i64) - 255, 255) as i32
}

/// A signed 8-bit sample: `v / 127`.
pub fn sample_from_i8(v: i8) -> (r: i32)
    ensures
        r == normalized(v as int, 127),
{
    normalize(v as i64, 127) as i32
}

/// An unsigned 16-bit sample: `v / 32767.5 - 1`.
pub fn sample_from_u16(v: u16) -> (r: i32)
    ensures
        r == normalized(2 * v - 65_535, 65_535),
        -(UNIT as int) <= r <= UNIT,
{
    normalize(2 * (v as i64) - 65_535, 65_535) as i32
}

/// A signed 16-bit sample: `v / 32767`.
pub fn sample_from_i16(v: i16) -> (r: i32)
    ensures
        r == normalized(v as int, 32_767),
{
    normalize(v as i64, 32_767) as i32
}

/// An unsigned 24-bit sample: `v / 8388607.5 - 1`.
pub fn sample_from_u24(v: u32) -> (r: i32)
    ensures
        r == normalized(2 * v - 16_777_215, 16_777_215),
{
    normalize(2 * (v as i64) - 16_777_215, 16_777_215) as i32
}

/// A signed 24-bit sample: `v / 8388607`.
pub fn sample_from_i24(v: i32) -> (r: i32)
    ensures
        r == normalized(v as int, 8_388_607),
{
    normalize(v as i64, 8_388_607) as i32
}

/// An unsigned 32-bit sample: `v / 2147483647.5 - 1`.
pub fn sample_from_u32(v: u32) -> (r: i32)
    ensures
        r == normalized(2 * v - 4_294_967_295, 4_294_967_295),
        -(UNIT as int) <= r <= UNIT,
{
    normalize(2 * (v as i64) - 4_294_967_295, 4_294_967_295) as i32
}

/// A signed 32-bit sample: `v / 2147483647`.
pub fn sample_from_i32(v: i32) -> (r: i32)
    ensures
        r == normalized(v as int, 2_147_483_647),
{
    normalize(v as i64, 2_147_483_647) as i32
}

/// The lowest of zero and the samples `pcm[lo..hi]`.
pub open spec fn span_min(pcm: Seq<i32>, lo: int, hi: int) -> int
    decreases hi - lo,
{
    if lo >= hi {
        0
    } else {
        let rest = span_min(pcm, lo, hi - 1);
        if pcm[hi - 1] < rest {
            pcm[hi - 1] as int
        } else {
            rest
        }
    }
}

/// The highest of zero and the samples `pcm[lo..hi]`.
pub open spec fn span_max(pcm: Seq<i32>, lo: int, hi: int) -> int
    decreases hi - lo,
{
    if lo >= hi {
        0
    } else {
        let rest = span_max(pcm, lo, hi - 1);
        if pcm[hi - 1] > rest {
            pcm[hi - 1] as int
        } else {
            rest
        }
    }
}

/// The number of samples in each bucket when `len` samples go into `buckets`
/// buckets: their quotient, but at least one.
pub open spec fn bucket_size(len: int, buckets: int) -> int {
    if buckets > 0 && len / buckets >= 1 {
        len / buckets
    } else {
        1
    }
}

/// The index at which bucket `i` starts; buckets behind the PCM are empty.
pub open spec fn bucket_start(len: int, buckets: int, i: int) -> int {
    if i * bucket_size(len, buckets) < len {
        i * bucket_size(len, buckets)
    } else {
        len
    }
}

/// The index before which bucket `i` ends.
pub open spec fn bucket_end(len: int, buckets: int, i: int) -> int {
    if i * bucket_size(len, buckets) + bucket_size(len, buckets) < len {
        i * bucket_size(len, buckets) + bucket_size(len, buckets)
    } else {
        len
    }
}

/// Why an asset could not be loaded.
#[derive(Clone, Copy, Debug, PartialEq, Eq, Structural)]
pub enum LoadError {
    /// Decoding yielded no samples.
    NoSamplesDecoded,
}

impl LoadError {
    /// The message for this error.
    pub fn message(&self) -> (text: &'static str)
        ensures
            text@ == "no audio samples decoded"@,
    {
        "no audio samples decoded"
    }
}

/// What the decoder hands over for one file.
pub struct DecodedAudio {
    pub file_name: String,
    pub pcm: Vec<i32>,
    pub sample_rate: u32,
    pub channels: u16,
    pub frames: u64,
}

/// One cached asset and the path it was loaded from.
pub struct CacheEntry {
    pub path: String,
    pub asset: AudioAsset,
}

/// `i` is the index of the oldest entry for `path`.
pub open spec fn is_entry_for(entries: Seq<CacheEntry>, path: Seq<char>, i: int) -> bool {
    &&& 0 <= i < entries.len()
    &&& entries[i].path@ == path
    &&& forall|j: int| 0 <= j < i ==> (#[trigger] entries[j]).path@ != path
}

/// The asset cached for `path`, if there is one.
pub open spec fn cached_asset(entries: Seq<CacheEntry>, path: Seq<char>) -> Option<AudioAsset> {
    if exists|i: int| is_entry_for(entries, path, i) {
        Some(entries[choose|i: int| is_entry_for(entries, path, i)].asset)
    } else {
        None
    }
}

/// No path is cached twice: the cache is a map from paths to assets.
pub open spec fn distinct_paths(entries: Seq<CacheEntry>) -> bool {
    forall|i: int, j: int|
        0 <= i < j < entries.len() ==> (#[trigger] entries[i]).path@ != (#[trigger] entries[j]).path@
}

/// The oldest entry is unique, so finding one finds [`cached_asset`].
pub proof fn lemma_entry_found(entries: Seq<CacheEntry>, path: Seq<char>, i: int)
    requires
        is_entry_for(entries, path, i),
    ensures
        cached_asset(entries, path) == Some(entries[i].asset),
{
    let chosen = choose|k: int| is_entry_for(entries, path, k);
    if chosen < i {
        assert(entries[chosen].path@ != path);
    } else if i < chosen {
        assert(entries[i].path@ != path);
    }
}

/// The assets loaded so far, by path.
pub struct AudioManager {
    assets: Vec<CacheEntry>,
}

impl AudioManager {
    /// The cache, oldest entry first.
    pub closed spec fn entries(&self) -> Seq<CacheEntry> {
        self.assets@
    }

    /// A manager with an empty cache.
    pub fn new() -> (r: Self)
        ensures
            r.entries() == Seq::<CacheEntry>::empty(),
    {
        AudioManager { assets: Vec::new() }
    }

    /// The asset cached for `path`.
    pub fn cached(&self, path: &str) -> (r: Option<AudioAsset>)
        ensures
            r == cached_asset(self.entries(), path@),
            r is None ==> forall|j: int|
                0 <= j < self.entries().len() ==> (#[trigger] self.entries()[j]).path@ != path@,
    {
        let wanted = path.to_owned();
        let mut i: usize = 0;
        while i < self.assets.len()
            invariant
                i <= self.assets@.len(),
                wanted@ == path@,
                forall|j: int| 0 <= j < i ==> (#[trigger] self.entries()[j]).path@ != path@,
            decreases self.assets@.len() - i,
        {
            if self.assets[i].path == wanted {
                proof {
                    lemma_entry_found(self.entries(), path@, i as int);
                }
                return Some(self.assets[i].asset.clone());
            }
            i += 1;
        }
        None
    }

    /// Takes what the decoder yielded for `path` into the cache and returns
    /// the asset. A path that is cached already yields the cached asset, and
    /// `decoded` is dropped. Decoded audio without samples is an error and
    /// leaves the cache as it is.
    pub fn load_audio(&mut self, path: &str, decoded: DecodedAudio) -> (r: Result<
        AudioAsset,
        LoadError,
    >)
        ensures
            distinct_paths(old(self).entries()) ==> distinct_paths(final(self).entries()),
            match cached_asset(old(self).entries(), path@) {
                Some(hit) => {
                    &&& r == Ok::<AudioAsset, LoadError>(hit)
                    &&& final(self).entries() == old(self).entries()
                },
                None => if decoded.pcm@.len() == 0 {
                    &&& r == Err::<AudioAsset, LoadError>(LoadError::NoSamplesDecoded)
                    &&& final(self).entries() == old(self).entries()
                } else {
                    &&& r matches Ok(asset)
                    &&& asset.pcm@ == decoded.pcm@
                    &&& asset.sample_rate == decoded.sample_rate
                    &&& asset.channels == decoded.channels
                    &&& asset.frames == decoded.frames
                    &&& asset.file_name@ == decoded.file_name@
                    &&& final(self).entries().len() == old(self).entries().len() + 1
                    &&& final(self).entries().drop_last() == old(self).entries()
                    &&& final(self).entries().last().path@ == path@
                    &&& final(self).entries().last().asset == asset
                },
            },
    {
        match self.cached(path) {
            Some(hit) => Ok(hit),
            None => {
                if decoded.pcm.len() == 0 {
                    return Err(LoadError::NoSamplesDecoded);
                }
                let asset = AudioAsset {
                    pcm: Arc::new(decoded.pcm),
                    sample_rate: decoded.sample_rate,
                    channels: decoded.channels,
                    frames: decoded.frames,
                    file_name: decoded.file_name,
                };
                let kept = asset.clone();
                self.assets.push(CacheEntry { path: path.to_owned(), asset: kept });
                assert(self.entries().drop_last() =~= old(self).entries());
                assert forall|i: int| 0 <= i < old(self).entries().len() implies self.entries()[i]
                    == old(self).entries()[i] by {
                    assert(self.entries().drop_last()[i] == self.entries()[i]);
                }
                Ok(asset)
            },
        }
    }

    /// The overview of an asset's PCM in `buckets` buckets: for each bucket,
    /// the lowest and the highest of its samples, neither past zero.
    pub fn analyze_waveform(&self, asset: &AudioAsset, buckets: usize) -> (r: WaveformAnalysis)
        ensures
            r.sample_rate == asset.sample_rate,
            r.min_max_buckets@.len() == buckets,
            forall|i: int|
                0 <= i < buckets ==> #[trigger] r.min_max_buckets@[i] == (
                    span_min(
                        asset.pcm@,
                        bucket_start(asset.pcm@.len() as int, buckets as int, i),
                        bucket_end(asset.pcm@.len() as int, buckets as int, i),
                    ) as i32,
                    span_max(
                        asset.pcm@,
                        bucket_start(asset.pcm@.len() as int, buckets as int, i),
                        bucket_end(asset.pcm@.len() as int, buckets as int, i),
                    ) as i32,
                ),
    {
        let len = asset.pcm.len();
        let size: usize = if buckets > 0 && len / buckets >= 1 {
            len / buckets
        } else {
            1
        };
        let mut out: Vec<(i32, i32)> = Vec::with_capacity(buckets);
        let mut start: usize = 0;
        let mut i: usize = 0;
        assert(0 * size == 0) by (nonlinear_arith);
        while i < buckets
            invariant
                i <= buckets,
                len == asset.pcm@.len(),
                0 < size == bucket_size(len as int, buckets as int),
                start == bucket_start(len as int, buckets as int, i as int),
                start <= len,
                out@.len() == i,
                forall|k: int|
                    0 <= k < i ==> #[trigger] out@[k] == (
                        span_min(
                            asset.pcm@,
                            bucket_start(len as int, buckets as int, k),
                            bucket_end(len as int, buckets as int, k),
                        ) as i32,
                        span_max(
                            asset.pcm@,
                            bucket_start(len as int, buckets as int, k),
                            bucket_end(len as int, buckets as int, k),
                        ) as i32,
                    ),
            decreases buckets - i,
        {
            let end: usize = if size < len - start {
                start + size
            } else {
                len
            };
            proof {
                assert((i + 1) * size == i * size + size) by (nonlinear_arith);
                assert(0 <= i * size) by (nonlinear_arith)
                    requires
                        0 <= i,
                        0 <= size,
                ;
            }
            assert(end == bucket_end(len as int, buckets as int, i as int));
            let mut low: i32 = 0;
            let mut high: i32 = 0;
            let mut k: usize = start;
            while k < end
                invariant
                    start <= k <= end <= len,
                    len == asset.pcm@.len(),
                    low == span_min(asset.pcm@, start as int, k as int),
                    high == span_max(asset.pcm@, start as int, k as int),
                decreases end - k,
            {
                let sample = asset.pcm[k];
                if sample < low {
                    low = sample;
                }
                if sample > high {
                    high = sample;
                }
                k += 1;
            }
            out.push((low, high));
            start = end;
            i += 1;
        }
        WaveformAnalysis { min_max_buckets: out, sample_rate: asset.sample_rate }
    }
}

} // verus!
