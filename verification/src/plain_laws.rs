//! Pictures of plain samples can be read back sample by sample.

use vstd::prelude::*;

use crate::arithmetic::{
    bins_fit, coded_bin, coded_bins, contexts_valid, flushed, flushed_bits, whole_interval, Bin,
    Coding,
};
use crate::arithmetic_laws::{
    engine_after, law_symbols_read_back, lemma_adapted_valid, reads_back,
};
use crate::bins::{decision, TYPE_I};
use crate::bits::{
    aligned, bits_of, bits_value, law_bits_value_of_bits, law_unpack_packed, lemma_bits_of_len,
    lemma_power_of_eight, lemma_unpacked_concat, packed, unpacked,
};
use crate::cabac::{
    adapted, coded, decided, renormalized, started, terminated, ContextState, Engine,
    I_MACROBLOCK_CONTEXT_INIT,
};
use crate::cabac_intra::header_bytes;
use crate::cabac_pcm::{cabac_pcm_idr, pcm_coded, pcm_site, pcm_written, PcmState};
use crate::cavlc_intra::{pcm_bits, pcm_macroblock, sample_bits, CoderState};
use crate::config::{Configuration, EncoderMode};
use crate::contexts::initial_states;
use crate::error::Error;
use crate::frame::{padded_samples, FrameModel};
use crate::framing::{law_unescape_nal, nal_of};
use crate::golomb::{finished, law_ue_round_trip, ue_bits, ue_decoded};
use crate::idr::{cavlc_idr, coder_start, idr_coded, idr_header, idr_site};
use crate::math::unit;
use crate::nal::unescaped;
use crate::picture::{Samples, SiteModel};
use crate::plane::region;
use crate::quantize::quantizer;
use crate::quantizers::adaptive_qps;

verus! {

/// Samples of eight bits each, from a place on.
pub open spec fn read_samples(bits: Seq<bool>, at: int, count: int) -> Seq<u8> {
    Seq::new(
        count as nat,
        |i: int| bits_value(bits.subrange(at + 8 * i, at + 8 * i + 8)) as u8,
    )
}

/// The samples of a macroblock: luma, then each chroma plane, row by row.
pub open spec fn macroblock_samples(source: Samples, wide: int, address: int) -> Seq<u8> {
    let x = address % wide;
    let y = address / wide;
    region(source.luma, 16 * wide, x * 16, y * 16, 16, 16) + region(
        source.cb,
        8 * wide,
        x * 8,
        y * 8,
        8,
        8,
    ) + region(source.cr, 8 * wide, x * 8, y * 8, 8, 8)
}

/// The macroblocks of plain samples that a reader finds from a place on: for each of them the type
/// that says so, the bits up to the next whole byte, and the samples.
pub open spec fn plain_macroblocks(bits: Seq<bool>, at: int, count: int) -> Option<Seq<Seq<u8>>>
    decreases count,
{
    if count <= 0 {
        Some(Seq::empty())
    } else {
        let (kind, rest) = ue_decoded(bits.skip(at));
        let after = bits.len() - rest.len();
        let start = after + (8 - after % 8) % 8;
        if kind != 25 || start + 3072 > bits.len() {
            None
        } else {
            match plain_macroblocks(bits, start + 3072, count - 1) {
                Some(later) => Some(seq![read_samples(bits, start, 384)] + later),
                None => None,
            }
        }
    }
}

/// The samples of all macroblocks from one on.
pub open spec fn samples_from(source: Samples, wide: int, first: int, count: int) -> Seq<Seq<u8>> {
    Seq::new(count as nat, |i: int| macroblock_samples(source, wide, first + i))
}

/// The bits of samples are eight for each.
proof fn lemma_sample_bits(samples: Seq<u8>, count: int, i: int)
    requires
        0 <= i < count <= samples.len(),
    ensures
        sample_bits(samples, count).len() == 8 * count,
        sample_bits(samples, count).subrange(8 * i, 8 * i + 8) == bits_of(samples[i] as nat, 8),
    decreases count,
{
    let last = bits_of(samples[count - 1] as nat, 8);
    lemma_bits_of_len(samples[count - 1] as nat, 8);
    let before = sample_bits(samples, count - 1);
    if count > 1 {
        let j = if i < count - 1 {
            i
        } else {
            0
        };
        lemma_sample_bits(samples, count - 1, j);
    } else {
        assert(before.len() == 0);
    }
    let all = sample_bits(samples, count);
    assert(all == before + last);
    if i < count - 1 {
        assert(all.subrange(8 * i, 8 * i + 8) =~= before.subrange(8 * i, 8 * i + 8));
    } else {
        assert(all.subrange(8 * i, 8 * i + 8) =~= last);
    }
}

proof fn lemma_byte_read(sample: u8)
    ensures
        bits_value(bits_of(sample as nat, 8)) as u8 == sample,
{
    lemma_power_of_eight();
    law_bits_value_of_bits(sample as nat, 8);
}

/// The plain bits of a macroblock hold its samples.
pub proof fn lemma_plain_bits(site: SiteModel)
    ensures
        pcm_bits(site).len() == 3072,
        forall|bits: Seq<bool>, at: int|
            0 <= at && at + 3072 <= bits.len() && bits.subrange(at, at + 3072) == pcm_bits(site)
                ==> #[trigger] read_samples(bits, at, 384) == region(
                site.source.luma,
                16 * site.wide,
                site.x * 16,
                site.y * 16,
                16,
                16,
            ) + region(site.source.cb, 8 * site.wide, site.x * 8, site.y * 8, 8, 8) + region(
                site.source.cr,
                8 * site.wide,
                site.x * 8,
                site.y * 8,
                8,
                8,
            ),
{
    let luma = region(site.source.luma, 16 * site.wide, site.x * 16, site.y * 16, 16, 16);
    let cb = region(site.source.cb, 8 * site.wide, site.x * 8, site.y * 8, 8, 8);
    let cr = region(site.source.cr, 8 * site.wide, site.x * 8, site.y * 8, 8, 8);
    let plain = pcm_bits(site);
    lemma_sample_bits(luma, 256, 0);
    lemma_sample_bits(cb, 64, 0);
    lemma_sample_bits(cr, 64, 0);
    let samples = luma + cb + cr;
    assert forall|i: int| 0 <= i < 384 implies #[trigger] plain.subrange(8 * i, 8 * i + 8)
        == bits_of(samples[i] as nat, 8) by {
        if i < 256 {
            lemma_sample_bits(luma, 256, i);
            assert(plain.subrange(8 * i, 8 * i + 8) =~= sample_bits(luma, 256).subrange(
                8 * i,
                8 * i + 8,
            ));
        } else if i < 320 {
            let j = i - 256;
            lemma_sample_bits(cb, 64, j);
            assert(plain.subrange(8 * i, 8 * i + 8) =~= sample_bits(cb, 64).subrange(
                8 * j,
                8 * j + 8,
            ));
        } else {
            let j = i - 320;
            lemma_sample_bits(cr, 64, j);
            assert(plain.subrange(8 * i, 8 * i + 8) =~= sample_bits(cr, 64).subrange(
                8 * j,
                8 * j + 8,
            ));
        }
    }
    assert forall|bits: Seq<bool>, at: int|
        0 <= at && at + 3072 <= bits.len() && bits.subrange(at, at + 3072)
            == plain implies #[trigger] read_samples(bits, at, 384) == samples by {
        assert forall|i: int| 0 <= i < 384 implies read_samples(bits, at, 384)[i] == samples[i] by {
            assert(bits.subrange(at + 8 * i, at + 8 * i + 8) =~= bits.subrange(
                at,
                at + 3072,
            ).subrange(8 * i, 8 * i + 8));
            assert(plain.subrange(8 * i, 8 * i + 8) == bits_of(samples[i] as nat, 8));
            lemma_byte_read(samples[i]);
        }
        assert(read_samples(bits, at, 384) =~= samples);
    }
}

/// The bits of a picture only grow.
proof fn lemma_prefix(
    configuration: Configuration,
    source: Samples,
    qps: Seq<int>,
    start: CoderState,
    first: int,
    count: int,
)
    requires
        configuration.mode == EncoderMode::Ipcm,
        0 <= first <= count,
    ensures
        idr_coded(configuration, source, qps, start, first).bits.is_prefix_of(
            idr_coded(configuration, source, qps, start, count).bits,
        ),
    decreases count - first,
{
    if first < count {
        lemma_prefix(configuration, source, qps, start, first, count - 1);
        reveal(pcm_macroblock);
        let early = idr_coded(configuration, source, qps, start, first).bits;
        let before = idr_coded(configuration, source, qps, start, count - 1).bits;
        let after = idr_coded(configuration, source, qps, start, count).bits;
        assert(before.is_prefix_of(after));
        assert(early =~= after.subrange(0, early.len() as int)) by {
            assert(early =~= before.subrange(0, early.len() as int));
        }
    }
}

proof fn lemma_plain_read(
    configuration: Configuration,
    source: Samples,
    qps: Seq<int>,
    start: CoderState,
    first: int,
    total: int,
    bits: Seq<bool>,
)
    requires
        configuration.mode == EncoderMode::Ipcm,
        0 <= first <= total,
        idr_coded(configuration, source, qps, start, total).bits.is_prefix_of(bits),
    ensures
        plain_macroblocks(
            bits,
            idr_coded(configuration, source, qps, start, first).bits.len() as int,
            total - first,
        ) == Some(
            samples_from(source, configuration.macroblocks_wide as int, first, total - first),
        ),
    decreases total - first,
{
    let wide = configuration.macroblocks_wide as int;
    let before = idr_coded(configuration, source, qps, start, first).bits;
    if first < total {
        lemma_plain_read(configuration, source, qps, start, first + 1, total, bits);
        lemma_prefix(configuration, source, qps, start, first + 1, total);
        reveal(pcm_macroblock);
        let next = idr_coded(configuration, source, qps, start, first + 1).bits;
        let last = idr_coded(configuration, source, qps, start, total).bits;
        let site = idr_site(configuration, source, qps, first);
        let kind = ue_bits(25);
        let filled = aligned(before + kind, false);
        assert(next == filled + pcm_bits(site));
        lemma_plain_bits(site);
        assert(next =~= bits.subrange(0, next.len() as int)) by {
            assert(next =~= last.subrange(0, next.len() as int));
            assert(last =~= bits.subrange(0, last.len() as int));
        }
        let tail = bits.skip((before.len() + kind.len()) as int);
        assert(bits.skip(before.len() as int) =~= kind + tail) by {
            assert forall|i: int| 0 <= i < kind.len() implies bits[before.len() + i] == kind[i] by {
                assert(bits[before.len() + i] == next[before.len() + i]);
            }
        }
        law_ue_round_trip(25, tail);
        let at = filled.len() as int;
        let inner = pcm_bits(site);
        assert forall|i: int| 0 <= i < 3072 implies bits[at + i] == inner[i] by {
            assert(next[at + i] == inner[i]);
            assert(bits[at + i] == bits.subrange(0, next.len() as int)[at + i]);
        }
        assert(bits.subrange(at, at + 3072) =~= inner);
        assert(read_samples(bits, at, 384) == macroblock_samples(source, wide, first));
        let later = samples_from(source, wide, first + 1, total - first - 1);
        assert(seq![macroblock_samples(source, wide, first)] + later =~= samples_from(
            source,
            wide,
            first,
            total - first,
        ));
    } else {
        assert(samples_from(source, wide, first, 0) =~= Seq::empty());
    }
}

/// From the unit of a picture of plain samples all samples of the frame, extended to whole
/// macroblocks, can be read back.
pub proof fn law_plain_read_back(
    configuration: Configuration,
    frame: FrameModel,
    pic_order_cnt_lsb: int,
)
    requires
        configuration.mode == EncoderMode::Ipcm,
    ensures
        ({
            let wide = configuration.macroblocks_wide as int;
            let high = configuration.macroblocks_high as int;
            let header = idr_header(
                configuration.pic_order_cnt_type0,
                pic_order_cnt_lsb,
                configuration.qp as int,
            );
            let nal = cavlc_idr(configuration, frame, pic_order_cnt_lsb).nal;
            let bits = unpacked(unescaped(nal, 0).skip(1));
            &&& unescaped(nal, 0)[0] == 0x65
            &&& header.is_prefix_of(bits)
            &&& plain_macroblocks(bits, header.len() as int, wide * high) == Some(
                samples_from(padded_samples(frame, wide, high), wide, 0, wide * high),
            )
        }),
{
    reveal(cavlc_idr);
    let wide = configuration.macroblocks_wide as int;
    let high = configuration.macroblocks_high as int;
    let qp = configuration.qp as int;
    let header = idr_header(configuration.pic_order_cnt_type0, pic_order_cnt_lsb, qp);
    let source = padded_samples(frame, wide, high);
    let qps = adaptive_qps(source.luma, wide, high, qp, configuration.aq_strength as int);
    let start = coder_start(header, wide, high, qp);
    let total = wide * high;
    assert(0 <= total) by (nonlinear_arith)
        requires
            total == wide * high,
            0 <= wide,
            0 <= high,
    ;
    let end = idr_coded(configuration, source, qps, start, total).bits;
    let payload = packed(finished(end));
    let nal = nal_of(0x65, payload);
    law_unescape_nal(0x65, payload);
    assert(unescaped(nal, 0).skip(1) =~= payload);
    law_unpack_packed(finished(end));
    let bits = unpacked(payload);
    assert(end.is_prefix_of(bits));
    lemma_prefix(configuration, source, qps, start, 0, total);
    assert(header =~= bits.subrange(0, header.len() as int)) by {
        assert(header =~= end.subrange(0, header.len() as int));
        assert(end =~= bits.subrange(0, end.len() as int));
    }
    lemma_plain_read(configuration, source, qps, start, 0, total, bits);
}

/// The macroblocks of plain samples that an arithmetic decoder finds from one on: for each of them
/// the two symbols that say so, the samples from the next whole byte on, and, from registers that
/// start anew, whether it is the last.
#[verifier::opaque]
pub open spec fn plain_symbols(
    engine: Engine,
    contexts: Seq<ContextState>,
    wide: int,
    address: int,
    total: int,
) -> Option<Seq<Seq<u8>>>
    decreases total - address,
{
    if address >= total {
        Some(Seq::empty())
    } else {
        let slot = plain_slot(wide, address);
        let (kind, context) = decided(engine, contexts[slot]);
        let ended = terminated(kind.engine);
        let first = ended.engine.at + (8 - ended.engine.at % 8) % 8;
        let anew = started(engine.bits, first + 3072, 0);
        let last = terminated(anew.engine);
        if kind.value != Ok::<bool, Error>(true) || ended.value != Ok::<bool, Error>(true) || first
            + 3072 > engine.bits.len() || anew.value is Err || last.value != Ok::<bool, Error>(
            address + 1 == total,
        ) {
            None
        } else {
            match plain_symbols(
                last.engine,
                contexts.update(slot, context),
                wide,
                address + 1,
                total,
            ) {
                Some(later) => Some(seq![read_samples(engine.bits, first, 384)] + later),
                None => None,
            }
        }
    }
}

/// The probability that tells of the type of a macroblock.
pub open spec fn plain_slot(wide: int, address: int) -> int {
    TYPE_I + 3 + unit(address % wide != 0) + unit(address / wide != 0)
}

/// The symbols before the samples of a macroblock, or behind those of the last.
spec fn symbols_before(wide: int, address: int, total: int) -> Seq<Bin> {
    let announced = seq![decision(plain_slot(wide, address), true), Bin::Terminate(true)];
    if address <= 0 {
        announced
    } else if address < total {
        seq![Bin::Terminate(false)] + announced
    } else {
        seq![Bin::Terminate(true)]
    }
}

/// The arithmetic code that the symbols before the samples of a macroblock become.
#[verifier::opaque]
spec fn code_before(
    contexts: Seq<ContextState>,
    wide: int,
    address: int,
    total: int,
) -> Coding {
    let bins = symbols_before(wide, address, total);
    coded_bins(Coding { interval: whole_interval(), contexts }, bins, bins.len() as int)
}

/// The probabilities before a macroblock.
#[verifier::opaque]
spec fn contexts_before(
    start: Seq<ContextState>,
    wide: int,
    address: int,
    total: int,
) -> Seq<ContextState>
    decreases address,
{
    if address <= 0 {
        start
    } else {
        code_before(
            contexts_before(start, wide, address - 1, total),
            wide,
            address - 1,
            total,
        ).contexts
    }
}

/// The bytes before a macroblock.
#[verifier::opaque]
spec fn bytes_before(
    start: Seq<u8>,
    contexts: Seq<ContextState>,
    source: Samples,
    wide: int,
    address: int,
    total: int,
) -> Seq<u8>
    decreases address,
{
    if address <= 0 {
        start
    } else {
        bytes_before(start, contexts, source, wide, address - 1, total) + flushed(
            code_before(
                contexts_before(contexts, wide, address - 1, total),
                wide,
                address - 1,
                total,
            ).interval,
        ) + packed(pcm_bits(pcm_site(source, wide, address - 1)))
    }
}

/// The arithmetic code of a macroblock continues that of the end of the one before it.
proof fn lemma_code_before(contexts: Seq<ContextState>, wide: int, address: int, total: int)
    requires
        0 <= address < total,
    ensures
        ({
            let start = Coding { interval: whole_interval(), contexts };
            let ready = if address == 0 {
                start
            } else {
                coded_bin(start, Bin::Terminate(false))
            };
            code_before(contexts, wide, address, total) == coded_bin(
                coded_bin(ready, decision(plain_slot(wide, address), true)),
                Bin::Terminate(true),
            )
        }),
{
    reveal(code_before);
    reveal_with_fuel(coded_bins, 4);
}

/// What is written before a macroblock.
proof fn lemma_written_before(
    source: Samples,
    wide: int,
    total: int,
    bytes: Seq<u8>,
    contexts: Seq<ContextState>,
    count: int,
)
    requires
        0 <= count <= total,
    ensures
        ({
            let start = PcmState {
                bytes,
                coding: Coding { interval: whole_interval(), contexts },
            };
            let here = pcm_coded(source, wide, total, start, count);
            let anew = Coding {
                interval: whole_interval(),
                contexts: contexts_before(contexts, wide, count, total),
            };
            &&& here.bytes == bytes_before(bytes, contexts, source, wide, count, total)
            &&& here.coding == if count == 0 {
                anew
            } else {
                coded_bin(anew, Bin::Terminate(count == total))
            }
        }),
    decreases count,
{
    reveal_with_fuel(contexts_before, 2);
    reveal_with_fuel(bytes_before, 2);
    if count > 0 {
        reveal(pcm_written);
        lemma_written_before(source, wide, total, bytes, contexts, count - 1);
        lemma_code_before(
            contexts_before(contexts, wide, count - 1, total),
            wide,
            count - 1,
            total,
        );
    }
}

/// The probabilities before a macroblock are ones that exist.
proof fn lemma_contexts_before(start: Seq<ContextState>, wide: int, address: int, total: int)
    requires
        contexts_valid(start),
        start.len() == 11,
        0 <= address <= total,
    ensures
        contexts_valid(contexts_before(start, wide, address, total)),
        contexts_before(start, wide, address, total).len() == 11,
    decreases address,
{
    reveal_with_fuel(contexts_before, 2);
    if address > 0 {
        lemma_contexts_before(start, wide, address - 1, total);
        let before = contexts_before(start, wide, address - 1, total);
        lemma_code_before(before, wide, address - 1, total);
        let slot = plain_slot(wide, address - 1);
        lemma_adapted_valid(before[slot], true != before[slot].most_probable_symbol);
    }
}

/// The bytes before a macroblock are the first of those before a later one.
proof fn lemma_bytes_grow(
    start: Seq<u8>,
    contexts: Seq<ContextState>,
    source: Samples,
    wide: int,
    address: int,
    later: int,
    total: int,
)
    requires
        0 <= address <= later,
    ensures
        ({
            let short = bytes_before(start, contexts, source, wide, address, total);
            let long = bytes_before(start, contexts, source, wide, later, total);
            short.len() <= long.len() && short == long.take(short.len() as int)
        }),
    decreases later - address,
{
    reveal_with_fuel(bytes_before, 2);
    let short = bytes_before(start, contexts, source, wide, address, total);
    if address < later {
        lemma_bytes_grow(start, contexts, source, wide, address, later - 1, total);
        let middle = bytes_before(start, contexts, source, wide, later - 1, total);
        let long = bytes_before(start, contexts, source, wide, later, total);
        assert(short =~= long.take(short.len() as int)) by {
            assert forall|i: int| 0 <= i < short.len() implies short[i] == long[i] by {
                assert(short[i] == middle.take(short.len() as int)[i]);
            }
        }
    } else {
        assert(short =~= short.take(short.len() as int));
    }
}

/// The bits of the symbols before a macroblock stand where its bytes begin.
proof fn lemma_symbols_stand(
    start: Seq<u8>,
    contexts: Seq<ContextState>,
    source: Samples,
    wide: int,
    address: int,
    total: int,
)
    requires
        0 <= address <= total,
        0 < total,
    ensures
        ({
            let last = code_before(contexts_before(contexts, wide, total, total), wide, total, total);
            let all = bytes_before(start, contexts, source, wide, total, total) + flushed(
                last.interval,
            );
            let bits = unpacked(all);
            let base = 8 * bytes_before(start, contexts, source, wide, address, total).len();
            let here = code_before(
                contexts_before(contexts, wide, address, total),
                wide,
                address,
                total,
            );
            let code = flushed_bits(here.interval);
            let site = pcm_site(source, wide, address);
            &&& base + code.len() <= bits.len()
            &&& code.is_prefix_of(bits.skip(base as int))
            &&& address < total ==> {
                let first = base + code.len() + (8 - code.len() % 8) % 8;
                &&& first + 3072 <= bits.len()
                &&& bits.subrange(first, first + 3072) == pcm_bits(site)
                &&& first + 3072 == 8 * bytes_before(
                    start,
                    contexts,
                    source,
                    wide,
                    address + 1,
                    total,
                ).len()
            }
        }),
{
    let last = code_before(contexts_before(contexts, wide, total, total), wide, total, total);
    reveal_with_fuel(bytes_before, 2);
    let body = bytes_before(start, contexts, source, wide, total, total);
    let all = body + flushed(last.interval);
    let bits = unpacked(all);
    let before = bytes_before(start, contexts, source, wide, address, total);
    let base = 8 * before.len();
    let here = code_before(contexts_before(contexts, wide, address, total), wide, address, total);
    let code = flushed_bits(here.interval);
    let inner = flushed(here.interval);
    law_unpack_packed(code);
    lemma_bytes_grow(start, contexts, source, wide, address, total, total);
    assert(unpacked(inner) == aligned(code, false));
    if address < total {
        let site = pcm_site(source, wide, address);
        let plain = pcm_bits(site);
        lemma_plain_bits(site);
        law_unpack_packed(plain);
        assert(aligned(plain, false) =~= plain);
        let next = bytes_before(start, contexts, source, wide, address + 1, total);
        assert(next == before + inner + packed(plain));
        lemma_bytes_grow(start, contexts, source, wide, address + 1, total, total);
        assert(all =~= next + all.skip(next.len() as int)) by {
            assert forall|i: int| 0 <= i < next.len() implies all[i] == next[i] by {
                assert(next[i] == body.take(next.len() as int)[i]);
            }
        }
        lemma_unpacked_concat(next, all.skip(next.len() as int));
        lemma_unpacked_concat(before + inner, packed(plain));
        lemma_unpacked_concat(before, inner);
        let rest = unpacked(all.skip(next.len() as int));
        assert(bits == unpacked(before) + aligned(code, false) + plain + rest);
        assert(code.is_prefix_of(bits.skip(base as int)));
        let first = base + code.len() + (8 - code.len() % 8) % 8;
        assert(bits.subrange(first, first + 3072) =~= plain);
    } else {
        assert(before == body);
        lemma_unpacked_concat(body, inner);
        assert(code.is_prefix_of(bits.skip(base as int)));
    }
}

/// The registers of a decoder at a macroblock, from those that started anew before it.
spec fn engine_at(anew: Engine, address: int) -> Engine {
    if address == 0 {
        anew
    } else {
        terminated(anew).engine
    }
}

/// Whether registers that start at `base` read the symbols before the samples of a macroblock.
#[verifier::opaque]
spec fn symbols_read(
    bits: Seq<bool>,
    base: int,
    contexts: Seq<ContextState>,
    wide: int,
    address: int,
    after: Coding,
) -> bool {
    let engine = engine_at(started(bits, base, 0).engine, address);
    let (kind, context) = decided(engine, contexts[plain_slot(wide, address)]);
    let ended = terminated(kind.engine);
    &&& engine.bits == bits
    &&& kind.value == Ok::<bool, Error>(true)
    &&& contexts.update(plain_slot(wide, address), context) == after.contexts
    &&& ended.value == Ok::<bool, Error>(true)
    &&& ended.engine.at == base + flushed_bits(after.interval).len()
}

/// Whether registers that start at `base` read whether the picture goes on.
#[verifier::opaque]
spec fn end_read(bits: Seq<bool>, base: int, address: int, total: int) -> bool {
    let anew = started(bits, base, 0);
    &&& anew.value is Ok
    &&& address > 0 ==> terminated(anew.engine).value == Ok::<bool, Error>(address == total)
}

/// A decoder reads the symbols before the samples of a macroblock.
proof fn lemma_symbols_read(
    bits: Seq<bool>,
    base: int,
    contexts: Seq<ContextState>,
    wide: int,
    address: int,
    total: int,
)
    requires
        0 <= address < total,
        contexts_valid(contexts),
        contexts.len() == 11,
        0 <= base <= bits.len(),
        flushed_bits(code_before(contexts, wide, address, total).interval).is_prefix_of(
            bits.skip(base),
        ),
    ensures
        end_read(bits, base, address, total),
        symbols_read(
            bits,
            base,
            contexts,
            wide,
            address,
            code_before(contexts, wide, address, total),
        ),
{
    reveal(symbols_read);
    reveal(end_read);
    let bins = symbols_before(wide, address, total);
    let slot = plain_slot(wide, address);
    assert(bins_fit(bins, 11));
    assert(bins.last() == Bin::Terminate(true));
    assert(code_before(contexts, wide, address, total) == coded_bins(
        Coding { interval: whole_interval(), contexts },
        bins,
        bins.len() as int,
    )) by {
        reveal(code_before);
    }
    law_symbols_read_back(contexts, bins, bits, base);
    lemma_code_before(contexts, wide, address, total);
    let anew = started(bits, base, 0);
    let engine = engine_at(anew.engine, address);
    lemma_bits_kept(anew.engine);
    let from: int = if address == 0 {
        0
    } else {
        1
    };
    assert(bins.len() == from + 2);
    assert(bins[from] == decision(slot, true) && bins[from + 1] == Bin::Terminate(true));
    assert(reads_back(engine, contexts, bins, from));
    assert(engine_after(engine, contexts, bins, from) == engine_after(
        anew.engine,
        contexts,
        bins,
        0,
    ));
    let (kind, context) = decided(engine, contexts[slot]);
    let next = contexts.update(slot, context);
    assert(reads_back(kind.engine, next, bins, from + 1));
    assert(engine_after(kind.engine, next, bins, from + 1) == engine_after(
        engine,
        contexts,
        bins,
        from,
    ));
    let ended = terminated(kind.engine);
    assert(engine_after(ended.engine, next, bins, from + 2) == ended.engine);
    lemma_context_after(engine, contexts[slot], true);
}

/// A decoder reads that the picture ends behind its last macroblock.
proof fn lemma_end_read(
    bits: Seq<bool>,
    base: int,
    contexts: Seq<ContextState>,
    wide: int,
    total: int,
)
    requires
        0 < total,
        contexts_valid(contexts),
        contexts.len() == 11,
        0 <= base <= bits.len(),
        flushed_bits(code_before(contexts, wide, total, total).interval).is_prefix_of(
            bits.skip(base),
        ),
    ensures
        end_read(bits, base, total, total),
{
    reveal(end_read);
    reveal(code_before);
    let bins = symbols_before(wide, total, total);
    assert(bins_fit(bins, 11));
    law_symbols_read_back(contexts, bins, bits, base);
    assert(bins[0] == Bin::Terminate(true));
}

/// One macroblock more.
proof fn lemma_plain_step(
    bits: Seq<bool>,
    base: int,
    contexts: Seq<ContextState>,
    wide: int,
    address: int,
    total: int,
    after: Coding,
    later: Seq<Seq<u8>>,
)
    requires
        0 <= address < total,
        0 <= base && base % 8 == 0,
        symbols_read(bits, base, contexts, wide, address, after),
        ({
            let length = flushed_bits(after.interval).len();
            let next = base + length + (8 - length % 8) % 8 + 3072;
            &&& next <= bits.len()
            &&& end_read(bits, next, address + 1, total)
            &&& plain_symbols(
                engine_at(started(bits, next, 0).engine, address + 1),
                after.contexts,
                wide,
                address + 1,
                total,
            ) == Some(later)
        }),
    ensures
        ({
            let length = flushed_bits(after.interval).len();
            let first = base + length + (8 - length % 8) % 8;
            plain_symbols(
                engine_at(started(bits, base, 0).engine, address),
                contexts,
                wide,
                address,
                total,
            ) == Some(seq![read_samples(bits, first, 384)] + later)
        }),
{
    reveal(symbols_read);
    reveal(end_read);
    reveal_with_fuel(plain_symbols, 2);
    let length = flushed_bits(after.interval).len() as int;
    assert((base + length) % 8 == length % 8);
}

/// There is nothing behind the last macroblock.
proof fn lemma_plain_end(engine: Engine, contexts: Seq<ContextState>, wide: int, total: int)
    ensures
        plain_symbols(engine, contexts, wide, total, total) == Some(Seq::<Seq<u8>>::empty()),
{
    reveal(plain_symbols);
}

/// The macroblocks from one on are read.
proof fn lemma_plain_symbols(
    start: Seq<u8>,
    contexts: Seq<ContextState>,
    source: Samples,
    wide: int,
    address: int,
    total: int,
    bits: Seq<bool>,
)
    requires
        0 <= address <= total,
        0 < total,
        contexts_valid(contexts),
        contexts.len() == 11,
        bits == unpacked(
            bytes_before(start, contexts, source, wide, total, total) + flushed(
                code_before(
                    contexts_before(contexts, wide, total, total),
                    wide,
                    total,
                    total,
                ).interval,
            ),
        ),
    ensures
        ({
            let base = 8 * bytes_before(start, contexts, source, wide, address, total).len();
            &&& end_read(bits, base as int, address, total)
            &&& plain_symbols(
                engine_at(started(bits, base as int, 0).engine, address),
                contexts_before(contexts, wide, address, total),
                wide,
                address,
                total,
            ) == Some(samples_from(source, wide, address, total - address))
        }),
    decreases total - address,
{
    let base = 8 * bytes_before(start, contexts, source, wide, address, total).len() as int;
    let here = contexts_before(contexts, wide, address, total);
    lemma_contexts_before(contexts, wide, address, total);
    lemma_symbols_stand(start, contexts, source, wide, address, total);
    if address < total {
        let site = pcm_site(source, wide, address);
        lemma_plain_bits(site);
        lemma_symbols_read(bits, base, here, wide, address, total);
        lemma_plain_symbols(start, contexts, source, wide, address + 1, total, bits);
        let after = code_before(here, wide, address, total);
        assert(contexts_before(contexts, wide, address + 1, total) == after.contexts) by {
            reveal_with_fuel(contexts_before, 2);
        }
        let length = flushed_bits(after.interval).len();
        let first = base + length + (8 - length % 8) % 8;
        assert(read_samples(bits, first, 384) == macroblock_samples(source, wide, address));
        let later = samples_from(source, wide, address + 1, total - address - 1);
        lemma_plain_step(bits, base, here, wide, address, total, after, later);
        assert(seq![macroblock_samples(source, wide, address)] + later =~= samples_from(
            source,
            wide,
            address,
            total - address,
        ));
    } else {
        lemma_end_read(bits, base, here, wide, total);
        lemma_plain_end(engine_at(started(bits, base, 0).engine, address), here, wide, total);
        assert(samples_from(source, wide, address, 0) =~= Seq::empty());
    }
}

/// Reading leaves the bits as they are.
proof fn lemma_bits_kept(engine: Engine)
    ensures
        terminated(engine).engine.bits == engine.bits,
{
    lemma_renormalized_bits(Engine { range: engine.range - 2, ..engine });
}

proof fn lemma_renormalized_bits(engine: Engine)
    ensures
        renormalized(engine).engine.bits == engine.bits,
    decreases (if engine.range >= 256 { 0 } else { 256 - engine.range }),
{
    if 0 < engine.range < 256 {
        let read = coded(Engine { range: 2 * engine.range, ..engine });
        if read.value is Ok {
            lemma_renormalized_bits(
                Engine {
                    offset: 2 * engine.offset + unit(read.value->Ok_0),
                    ..read.engine
                },
            );
        }
    }
}

/// The probability after a symbol depends on the symbol alone.
proof fn lemma_context_after(engine: Engine, context: ContextState, value: bool)
    ensures
        decided(engine, context).0.value == Ok::<bool, Error>(value) ==> decided(
            engine,
            context,
        ).1 == adapted(context, value != context.most_probable_symbol),
{
}

/// From the unit of a picture of plain samples whose types are coded arithmetically all samples of
/// the frame, extended to whole macroblocks, can be read back.
pub proof fn law_plain_symbols_read_back(
    configuration: Configuration,
    frame: FrameModel,
    pic_order_cnt_lsb: int,
)
    requires
        quantizer(configuration.qp as int),
        configuration.macroblocks_wide > 0,
        configuration.macroblocks_high > 0,
    ensures
        ({
            let wide = configuration.macroblocks_wide as int;
            let high = configuration.macroblocks_high as int;
            let qp = configuration.qp as int;
            let header = idr_header(configuration.pic_order_cnt_type0, pic_order_cnt_lsb, qp);
            let nal = cabac_pcm_idr(configuration, frame, pic_order_cnt_lsb).nal;
            let bits = unpacked(unescaped(nal, 0).skip(1));
            let base = 8 * header_bytes(header).len();
            &&& unescaped(nal, 0)[0] == 0x65
            &&& header_bytes(header).is_prefix_of(unescaped(nal, 0).skip(1))
            &&& started(bits, base as int, 0).value is Ok
            &&& plain_symbols(
                started(bits, base as int, 0).engine,
                initial_states(I_MACROBLOCK_CONTEXT_INIT@, qp),
                wide,
                0,
                wide * high,
            ) == Some(samples_from(padded_samples(frame, wide, high), wide, 0, wide * high))
        }),
{
    reveal(cabac_pcm_idr);
    let wide = configuration.macroblocks_wide as int;
    let high = configuration.macroblocks_high as int;
    let qp = configuration.qp as int;
    let header = idr_header(configuration.pic_order_cnt_type0, pic_order_cnt_lsb, qp);
    let source = padded_samples(frame, wide, high);
    let contexts = initial_states(I_MACROBLOCK_CONTEXT_INIT@, qp);
    let total = wide * high;
    assert(0 < total) by (nonlinear_arith)
        requires
            total == wide * high,
            0 < wide,
            0 < high,
    ;
    let bytes = header_bytes(header);
    let start = PcmState { bytes, coding: Coding { interval: whole_interval(), contexts } };
    let end = pcm_coded(source, wide, total, start, total);
    lemma_written_before(source, wide, total, bytes, contexts, total);
    let here = contexts_before(contexts, wide, total, total);
    assert(code_before(here, wide, total, total) == end.coding) by {
        reveal(code_before);
        reveal_with_fuel(coded_bins, 2);
    }
    let payload = end.bytes + flushed(end.coding.interval);
    law_unescape_nal(0x65, payload);
    assert(unescaped(nal_of(0x65, payload), 0).skip(1) =~= payload);
    lemma_bytes_grow(bytes, contexts, source, wide, 0, total, total);
    assert(bytes_before(bytes, contexts, source, wide, 0, total) == bytes) by {
        reveal_with_fuel(bytes_before, 2);
    }
    assert(contexts_before(contexts, wide, 0, total) == contexts) by {
        reveal_with_fuel(contexts_before, 2);
    }
    assert(bytes.is_prefix_of(payload)) by {
        assert(bytes =~= end.bytes.take(bytes.len() as int));
        assert(bytes =~= payload.subrange(0, bytes.len() as int));
    }
    lemma_plain_symbols(bytes, contexts, source, wide, 0, total, unpacked(payload));
    reveal(end_read);
}

} // verus!
