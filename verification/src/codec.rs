//! Persistence: a lossless textual encoding of a trained model.
//!
//! The encoding is a flat run of 64-bit words, each written as exactly
//! sixteen lowercase hexadecimal digits, with no separators: lengths and
//! counts first, then the fields of each label and each estimator.  Since
//! the floating-point state is already carried as bit patterns, writing
//! the patterns as hex digits round-trips every value exactly; decoding
//! the bytes an encoding produced is proved to give back the very model
//! that was encoded.

use vstd::prelude::*;
use vstd::arithmetic::div_mod::lemma_div_denominator;
use vstd::arithmetic::div_mod::lemma_mod_division_less_than_divisor;
use crate::class_label::ClassLabel;
use crate::gaussian_classification::GaussianClassification;
use crate::error::ModelError;
use crate::gaussian_feature::FeatureView;
use crate::gaussian_feature::GaussianFeature;
use crate::model::GaussianNaiveBayes;
use crate::model::ModelView;

verus! {

/// Sixteen to the power `k`.
pub open spec fn pow16(k: nat) -> nat
    decreases k,
{
    if k == 0 {
        1
    } else {
        16 * pow16((k - 1) as nat)
    }
}

proof fn lemma_pow16_pos(k: nat)
    ensures
        pow16(k) >= 1,
    decreases k,
{
    if k > 0 {
        lemma_pow16_pos((k - 1) as nat);
    }
}

/// Sixteen hex digits hold exactly the values of a 64-bit word.
proof fn lemma_pow16_16()
    ensures
        pow16(16) == 0x1_0000_0000_0000_0000,
{
    reveal_with_fuel(pow16, 17);
}

/// Whether a byte is a lowercase hexadecimal digit.
pub open spec fn is_hex_digit(b: u8) -> bool {
    (48 <= b <= 57) || (97 <= b <= 102)
}

/// The byte spelling a single hex digit: `0..=9` then `a..=f`.
pub open spec fn hex_char(d: nat) -> u8
    recommends
        d < 16,
{
    if d < 10 {
        (48 + d) as u8
    } else {
        (87 + d) as u8
    }
}

/// The value of a hex digit byte.
pub open spec fn hex_val(b: u8) -> nat {
    if 48 <= b <= 57 {
        (b - 48) as nat
    } else {
        (b - 87) as nat
    }
}

/// Digit `i` (most significant first) of a word's sixteen-digit spelling.
pub open spec fn nibble(w: u64, i: int) -> nat {
    ((w as nat) / pow16((15 - i) as nat)) % 16
}

/// The sixteen hex bytes spelling a word, most significant digit first.
pub open spec fn word_hex(w: u64) -> Seq<u8> {
    Seq::new(16, |i: int| hex_char(nibble(w, i)))
}

/// The value of the first `k` bytes of `s` read as hex digits.
pub open spec fn val_upto(s: Seq<u8>, k: int) -> nat
    decreases k,
{
    if k <= 0 {
        0
    } else {
        val_upto(s, k - 1) * 16 + hex_val(s[k - 1])
    }
}

/// Reading a word's worth of hex digits from the front of `s`: the word
/// and the remainder, or nothing if `s` is too short or holds a byte that
/// is no hex digit.
pub open spec fn parse_word(s: Seq<u8>) -> Option<(u64, Seq<u8>)> {
    if s.len() >= 16 && (forall|i: int| 0 <= i < 16 ==> is_hex_digit(#[trigger] s[i])) {
        Some(((val_upto(s, 16) as u64), s.skip(16)))
    } else {
        None
    }
}

/// `val_upto` reads only the first `k` bytes.
proof fn lemma_val_upto_congruence(s: Seq<u8>, t: Seq<u8>, k: int)
    requires
        0 <= k <= s.len(),
        k <= t.len(),
        forall|i: int| 0 <= i < k ==> s[i] == #[trigger] t[i],
    ensures
        val_upto(s, k) == val_upto(t, k),
    decreases k,
{
    if k > 0 {
        lemma_val_upto_congruence(s, t, k - 1);
    }
}

/// Folding the spelled digits of `w` back up recovers the value digit by
/// digit: after `k` digits the accumulator holds `w` shifted right by the
/// digits still unread.
proof fn lemma_val_of_word_hex(w: u64, k: int)
    requires
        0 <= k <= 16,
    ensures
        val_upto(word_hex(w), k) == (w as nat) / pow16((16 - k) as nat),
    decreases k,
{
    lemma_pow16_16();
    if k == 0 {
        lemma_pow16_pos(16);
        vstd::arithmetic::div_mod::lemma_basic_div((w as nat) as int, pow16(16) as int);
    } else {
        lemma_val_of_word_hex(w, k - 1);
        let p = pow16((16 - k) as nat);
        lemma_pow16_pos((16 - k) as nat);
        assert(pow16((16 - (k - 1)) as nat) == 16 * p);
        lemma_div_denominator(w as int, p as int, 16);
        lemma_mod_division_less_than_divisor(((w as nat) / p) as int, 16);
        assert(hex_val(word_hex(w)[k - 1]) == nibble(w, k - 1)) by {
            lemma_mod_division_less_than_divisor(
                ((w as nat) / pow16((15 - (k - 1)) as nat)) as int,
                16,
            );
        }
        assert(nibble(w, k - 1) == ((w as nat) / p) % 16);
        assert(((w as nat) / p) / 16 == (w as nat) / (16 * p)) by {
            lemma_div_denominator(w as int, p as int, 16);
        }
        vstd::arithmetic::div_mod::lemma_fundamental_div_mod(((w as nat) / p) as int, 16);
    }
}

/// Parsing a word off a stream that starts with that word's spelling
/// yields the word and leaves exactly the tail.
proof fn lemma_parse_word_round(w: u64, rest: Seq<u8>)
    ensures
        parse_word(word_hex(w) + rest) == Some((w, rest)),
{
    let s = word_hex(w) + rest;
    assert forall|i: int| 0 <= i < 16 implies is_hex_digit(#[trigger] s[i]) by {
        assert(s[i] == word_hex(w)[i]);
        lemma_mod_division_less_than_divisor(((w as nat) / pow16((15 - i) as nat)) as int, 16);
    }
    assert(s.len() >= 16);
    lemma_val_of_word_hex(w, 16);
    lemma_val_upto_congruence(s, word_hex(w), 16);
    assert(pow16(0) == 1);
    vstd::arithmetic::div_mod::lemma_div_basics_2(w as int);
    assert(val_upto(s, 16) == w as nat);
    assert(s.skip(16) =~= rest);
}

/// Appends the sixteen hex digits of `w` to `out`.
pub fn push_word(out: &mut Vec<u8>, w: u64)
    ensures
        final(out)@ == old(out)@ + word_hex(w),
{
    let mut low_digits: Vec<u8> = Vec::new();
    let mut tmp: u64 = w;
    let mut j: usize = 0;
    proof {
        vstd::arithmetic::div_mod::lemma_div_basics_2(w as int);
        assert(pow16(0) == 1);
    }
    while j < 16
        invariant
            j <= 16,
            low_digits@.len() == j,
            tmp as nat == (w as nat) / pow16(j as nat),
            forall|i: int|
                0 <= i < j ==> #[trigger] low_digits@[i] as nat == ((w as nat) / pow16(i as nat))
                    % 16,
        decreases 16 - j,
    {
        proof {
            lemma_pow16_pos(j as nat);
            lemma_div_denominator(w as int, pow16(j as nat) as int, 16);
            lemma_mod_division_less_than_divisor(tmp as int, 16);
        }
        let digit = (tmp % 16) as u8;
        low_digits.push(digit);
        tmp = tmp / 16;
        j = j + 1;
    }
    let mut i: usize = 0;
    while i < 16
        invariant
            i <= 16,
            low_digits@.len() == 16,
            forall|k: int|
                0 <= k < 16 ==> #[trigger] low_digits@[k] as nat == ((w as nat) / pow16(k as nat))
                    % 16,
            out@.len() == old(out)@.len() + i,
            out@ == old(out)@ + word_hex(w).take(i as int),
        decreases 16 - i,
    {
        let d = low_digits[15 - i];
        proof {
            lemma_mod_division_less_than_divisor(
                ((w as nat) / pow16((15 - i as int) as nat)) as int,
                16,
            );
            assert(word_hex(w)[i as int] == hex_char(nibble(w, i as int)));
            assert(nibble(w, i as int) == d as nat);
        }
        let c: u8 = if d < 10 {
            48 + d
        } else {
            87 + d
        };
        out.push(c);
        proof {
            assert(c == hex_char(d as nat));
            assert(out@ =~= old(out)@ + word_hex(w).take(i as int + 1));
        }
        i = i + 1;
    }
    proof {
        assert(word_hex(w).take(16) =~= word_hex(w));
    }
}

/// Reads the word spelled at `pos`, if sixteen hex digits stand there.
/// The outcome and the word agree with `parse_word` on the byte stream
/// from `pos` on.
pub fn read_word(bytes: &Vec<u8>, pos: usize) -> (r: Option<u64>)
    requires
        pos <= bytes@.len(),
    ensures
        match r {
            Some(w) => pos + 16 <= bytes@.len() && parse_word(bytes@.skip(pos as int)) == Some(
                (w, bytes@.skip(pos as int + 16)),
            ),
            None => parse_word(bytes@.skip(pos as int)) is None,
        },
{
    let ghost s = bytes@.skip(pos as int);
    let n = bytes.len();
    if n - pos < 16 {
        return None;
    }
    let mut acc: u64 = 0;
    let mut k: usize = 0;
    while k < 16
        invariant
            k <= 16,
            n == bytes@.len(),
            pos + 16 <= n,
            s == bytes@.skip(pos as int),
            forall|i: int| 0 <= i < k ==> is_hex_digit(#[trigger] s[i]),
            acc as nat == val_upto(s, k as int),
            (acc as nat) < pow16(k as nat),
        decreases 16 - k,
    {
        let b = bytes[pos + k];
        proof {
            assert(s[k as int] == bytes@[pos + k as int]);
        }
        let digit: u8 = if 48 <= b && b <= 57 {
            b - 48
        } else if 97 <= b && b <= 102 {
            b - 87
        } else {
            return None;
        };
        proof {
            lemma_pow16_16();
            lemma_pow16_pos(k as nat);
            assert(pow16(k as nat + 1) == 16 * pow16(k as nat));
            assert(pow16(k as nat + 1) <= pow16(16)) by {
                lemma_pow16_increases(k as nat + 1, 16);
            }
            assert((acc as nat) * 16 + (digit as nat) < pow16(k as nat + 1));
        }
        acc = acc * 16 + (digit as u64);
        k = k + 1;
    }
    proof {
        assert(parse_word(s) == Some((val_upto(s, 16) as u64, s.skip(16))));
        lemma_pow16_16();
        assert(val_upto(s, 16) as u64 == acc);
        assert(bytes@.skip(pos as int).skip(16) =~= bytes@.skip(pos as int + 16));
    }
    Some(acc)
}

/// Larger exponents give larger powers.
proof fn lemma_pow16_increases(a: nat, b: nat)
    requires
        a <= b,
    ensures
        pow16(a) <= pow16(b),
    decreases b,
{
    if a < b {
        lemma_pow16_increases(a, (b - 1) as nat);
        lemma_pow16_pos((b - 1) as nat);
    }
}

/// The two words encoding one label: its index, then its byte symbol.
pub open spec fn label_bytes(l: ClassLabel) -> Seq<u8> {
    word_hex(l.index as u64) + word_hex(l.ascii as u64)
}

/// The labels of the model, encoded in order.
pub open spec fn labels_bytes(ls: Seq<ClassLabel>) -> Seq<u8>
    decreases ls.len(),
{
    if ls.len() == 0 {
        Seq::empty()
    } else {
        label_bytes(ls[0]) + labels_bytes(ls.drop_first())
    }
}

/// The four words encoding one estimator: mean, deviation, count, and the
/// squared-deviation sum.
pub open spec fn stat_bytes(c: GaussianClassification) -> Seq<u8> {
    word_hex(c.mean) + word_hex(c.std) + word_hex(c.sample_size as u64) + word_hex(
        c.square_mean_diffs,
    )
}

/// A feature's estimators, encoded in class order.
pub open spec fn stats_bytes(cs: Seq<GaussianClassification>) -> Seq<u8>
    decreases cs.len(),
{
    if cs.len() == 0 {
        Seq::empty()
    } else {
        stat_bytes(cs[0]) + stats_bytes(cs.drop_first())
    }
}

/// The word a flag is stored as.
pub open spec fn bool_word(b: bool) -> u64 {
    if b {
        1
    } else {
        0
    }
}

/// One feature: its flag, its count, how many estimators follow, and the
/// estimators themselves.
pub open spec fn feature_bytes(f: FeatureView) -> Seq<u8> {
    word_hex(bool_word(f.is_trained)) + word_hex(f.sample_size as u64) + word_hex(
        f.classifications.len() as u64,
    ) + stats_bytes(f.classifications)
}

/// The features of the model, encoded in column order.
pub open spec fn features_bytes(fs: Seq<FeatureView>) -> Seq<u8>
    decreases fs.len(),
{
    if fs.len() == 0 {
        Seq::empty()
    } else {
        feature_bytes(fs[0]) + features_bytes(fs.drop_first())
    }
}

/// The whole encoding `save` produces: the label count and the labels,
/// then the feature count and the features.
pub open spec fn encode_spec(v: ModelView) -> Seq<u8> {
    word_hex(v.labels.len() as u64) + labels_bytes(v.labels) + word_hex(v.features.len() as u64)
        + features_bytes(v.features)
}

/// Reading `count` labels off the front of `s`.
pub open spec fn parse_labels(s: Seq<u8>, count: nat) -> Option<(Seq<ClassLabel>, Seq<u8>)>
    decreases count,
{
    if count == 0 {
        Some((Seq::empty(), s))
    } else {
        match parse_word(s) {
            Option::None => Option::None,
            Option::Some((iw, s1)) => if (iw as nat) > (usize::MAX as nat) {
                Option::None
            } else {
                match parse_word(s1) {
                    Option::None => Option::None,
                    Option::Some((aw, s2)) => if (aw as nat) > 255 {
                        Option::None
                    } else {
                        match parse_labels(s2, (count - 1) as nat) {
                            Option::None => Option::None,
                            Option::Some((rest, s3)) => Option::Some(
                                (
                                    seq![ClassLabel { index: iw as usize, ascii: aw as u8 }] + rest,
                                    s3,
                                ),
                            ),
                        }
                    },
                }
            },
        }
    }
}

/// Reading `count` estimators off the front of `s`.
pub open spec fn parse_stats(s: Seq<u8>, count: nat) -> Option<(
    Seq<GaussianClassification>,
    Seq<u8>,
)>
    decreases count,
{
    if count == 0 {
        Some((Seq::empty(), s))
    } else {
        match parse_word(s) {
            Option::None => Option::None,
            Option::Some((mw, s1)) => match parse_word(s1) {
                Option::None => Option::None,
                Option::Some((dw, s2)) => match parse_word(s2) {
                    Option::None => Option::None,
                    Option::Some((nw, s3)) => if (nw as nat) > (usize::MAX as nat) {
                        Option::None
                    } else {
                        match parse_word(s3) {
                            Option::None => Option::None,
                            Option::Some((qw, s4)) => match parse_stats(s4, (count - 1) as nat) {
                                Option::None => Option::None,
                                Option::Some((rest, s5)) => Option::Some(
                                    (
                                        seq![
                                            GaussianClassification {
                                                mean: mw,
                                                std: dw,
                                                sample_size: nw as usize,
                                                square_mean_diffs: qw,
                                            },
                                        ] + rest,
                                        s5,
                                    ),
                                ),
                            },
                        }
                    },
                },
            },
        }
    }
}

/// Reading `count` features off the front of `s`.
pub open spec fn parse_features(s: Seq<u8>, count: nat) -> Option<(Seq<FeatureView>, Seq<u8>)>
    decreases count,
{
    if count == 0 {
        Some((Seq::empty(), s))
    } else {
        match parse_word(s) {
            Option::None => Option::None,
            Option::Some((tw, s1)) => if (tw as nat) > 1 {
                Option::None
            } else {
                match parse_word(s1) {
                    Option::None => Option::None,
                    Option::Some((nw, s2)) => if (nw as nat) > (usize::MAX as nat) {
                        Option::None
                    } else {
                        match parse_word(s2) {
                            Option::None => Option::None,
                            Option::Some((cw, s3)) => if (cw as nat) > (usize::MAX as nat) {
                                Option::None
                            } else {
                                match parse_stats(s3, cw as nat) {
                                    Option::None => Option::None,
                                    Option::Some((cs, s4)) => match parse_features(
                                        s4,
                                        (count - 1) as nat,
                                    ) {
                                        Option::None => Option::None,
                                        Option::Some((rest, s5)) => Option::Some(
                                            (
                                                seq![
                                                    FeatureView {
                                                        is_trained: tw == 1,
                                                        sample_size: nw as usize,
                                                        classifications: cs,
                                                    },
                                                ] + rest,
                                                s5,
                                            ),
                                        ),
                                    },
                                }
                            },
                        }
                    },
                }
            },
        }
    }
}

/// Decoding a whole model: counts and contents, with nothing left over.
pub open spec fn decode_spec(s: Seq<u8>) -> Option<ModelView> {
    match parse_word(s) {
        Option::None => Option::None,
        Option::Some((lw, s1)) => if (lw as nat) > (usize::MAX as nat) {
            Option::None
        } else {
            match parse_labels(s1, lw as nat) {
                Option::None => Option::None,
                Option::Some((ls, s2)) => match parse_word(s2) {
                    Option::None => Option::None,
                    Option::Some((fw, s3)) => if (fw as nat) > (usize::MAX as nat) {
                        Option::None
                    } else {
                        match parse_features(s3, fw as nat) {
                            Option::None => Option::None,
                            Option::Some((fs, s4)) => if s4.len() == 0 {
                                Option::Some(ModelView { labels: ls, features: fs })
                            } else {
                                Option::None
                            },
                        }
                    },
                },
            }
        },
    }
}

/// Parsing labels off a stream that starts with their encoding yields the
/// labels and leaves exactly the tail.
proof fn lemma_parse_labels_round(ls: Seq<ClassLabel>, rest: Seq<u8>)
    ensures
        parse_labels(labels_bytes(ls) + rest, ls.len()) == Some((ls, rest)),
    decreases ls.len(),
{
    if ls.len() == 0 {
        assert(labels_bytes(ls) + rest =~= rest);
        assert(parse_labels(rest, 0) == Some((Seq::<ClassLabel>::empty(), rest)));
        assert(ls =~= Seq::<ClassLabel>::empty());
    } else {
        let l = ls[0];
        let tail1 = word_hex(l.ascii as u64) + (labels_bytes(ls.drop_first()) + rest);
        let tail2 = labels_bytes(ls.drop_first()) + rest;
        assert(labels_bytes(ls) + rest =~= word_hex(l.index as u64) + tail1);
        lemma_parse_word_round(l.index as u64, tail1);
        assert(tail1 =~= word_hex(l.ascii as u64) + tail2);
        lemma_parse_word_round(l.ascii as u64, tail2);
        lemma_parse_labels_round(ls.drop_first(), rest);
        assert((ClassLabel {
            index: (l.index as u64) as usize,
            ascii: (l.ascii as u64) as u8,
        }) == l);
        assert(seq![l] + ls.drop_first() =~= ls);
    }
}

/// Parsing estimators off a stream that starts with their encoding yields
/// the estimators and leaves exactly the tail.
proof fn lemma_parse_stats_round(cs: Seq<GaussianClassification>, rest: Seq<u8>)
    ensures
        parse_stats(stats_bytes(cs) + rest, cs.len()) == Some((cs, rest)),
    decreases cs.len(),
{
    if cs.len() == 0 {
        assert(stats_bytes(cs) + rest =~= rest);
        assert(cs =~= Seq::<GaussianClassification>::empty());
    } else {
        let c = cs[0];
        let tail3 = stats_bytes(cs.drop_first()) + rest;
        let tail2 = word_hex(c.square_mean_diffs) + tail3;
        let tail1 = word_hex(c.sample_size as u64) + tail2;
        let tail0 = word_hex(c.std) + tail1;
        assert(stats_bytes(cs) + rest =~= word_hex(c.mean) + tail0);
        lemma_parse_word_round(c.mean, tail0);
        lemma_parse_word_round(c.std, tail1);
        lemma_parse_word_round(c.sample_size as u64, tail2);
        lemma_parse_word_round(c.square_mean_diffs, tail3);
        lemma_parse_stats_round(cs.drop_first(), rest);
        assert((GaussianClassification {
            mean: c.mean,
            std: c.std,
            sample_size: (c.sample_size as u64) as usize,
            square_mean_diffs: c.square_mean_diffs,
        }) == c);
        assert(seq![c] + cs.drop_first() =~= cs);
    }
}

/// Parsing features off a stream that starts with their encoding yields
/// the features and leaves exactly the tail.
proof fn lemma_parse_features_round(fs: Seq<FeatureView>, rest: Seq<u8>)
    requires
        forall|i: int|
            0 <= i < fs.len() ==> (#[trigger] fs[i]).classifications.len() <= usize::MAX,
    ensures
        parse_features(features_bytes(fs) + rest, fs.len()) == Some((fs, rest)),
    decreases fs.len(),
{
    if fs.len() == 0 {
        assert(features_bytes(fs) + rest =~= rest);
        assert(fs =~= Seq::<FeatureView>::empty());
    } else {
        let f = fs[0];
        let tail3 = features_bytes(fs.drop_first()) + rest;
        let tail2 = stats_bytes(f.classifications) + tail3;
        let tail1 = word_hex(f.classifications.len() as u64) + tail2;
        let tail0 = word_hex(f.sample_size as u64) + tail1;
        assert(features_bytes(fs) + rest =~= word_hex(bool_word(f.is_trained)) + tail0);
        lemma_parse_word_round(bool_word(f.is_trained), tail0);
        lemma_parse_word_round(f.sample_size as u64, tail1);
        lemma_parse_word_round(f.classifications.len() as u64, tail2);
        lemma_parse_stats_round(f.classifications, tail3);
        assert(f.classifications.len() <= usize::MAX);
        assert((f.classifications.len() as u64) as nat == f.classifications.len());
        lemma_parse_features_round(fs.drop_first(), rest);
        assert((FeatureView {
            is_trained: bool_word(f.is_trained) == 1,
            sample_size: (f.sample_size as u64) as usize,
            classifications: f.classifications,
        }) == f);
        assert(seq![f] + fs.drop_first() =~= fs);
    }
}

/// The persistence round trip: decoding the bytes a model was encoded to
/// yields that model again, every label, flag, count, mean and deviation
/// bit pattern included.  Classification depends on nothing but this
/// state, so a reloaded model classifies every sample exactly as the
/// saved one did.
pub proof fn lemma_encode_decode_round_trip(v: ModelView)
    requires
        v.labels.len() <= usize::MAX,
        v.features.len() <= usize::MAX,
        forall|i: int| 0 <= i < v.features.len() ==> (#[trigger] v.features[i]).classifications.len() <= usize::MAX,
    ensures
        decode_spec(encode_spec(v)) == Some(v),
{
    let s = encode_spec(v);
    let tail2 = features_bytes(v.features);
    let tail1 = word_hex(v.features.len() as u64) + tail2;
    let tail0 = labels_bytes(v.labels) + tail1;
    assert(s =~= word_hex(v.labels.len() as u64) + tail0);
    lemma_parse_word_round(v.labels.len() as u64, tail0);
    lemma_parse_labels_round(v.labels, tail1);
    lemma_parse_word_round(v.features.len() as u64, tail2);
    lemma_parse_features_round(v.features, Seq::empty());
    assert(features_bytes(v.features) + Seq::<u8>::empty() =~= features_bytes(v.features));
    assert((v.labels.len() as u64) as nat == v.labels.len());
    assert((v.features.len() as u64) as nat == v.features.len());
}

/// Appending one label extends the encoding by that label's bytes.
proof fn lemma_labels_bytes_push(t: Seq<ClassLabel>, x: ClassLabel)
    ensures
        labels_bytes(t.push(x)) == labels_bytes(t) + label_bytes(x),
    decreases t.len(),
{
    if t.len() == 0 {
        assert(t.push(x)[0] == x);
        assert(t.push(x).drop_first() =~= Seq::<ClassLabel>::empty());
        assert(labels_bytes(t.push(x)) == label_bytes(x) + labels_bytes(Seq::<ClassLabel>::empty()));
        assert(labels_bytes(t.push(x)) =~= labels_bytes(t) + label_bytes(x));
    } else {
        assert(t.push(x)[0] == t[0]);
        assert(t.push(x).drop_first() =~= t.drop_first().push(x));
        lemma_labels_bytes_push(t.drop_first(), x);
        assert(labels_bytes(t.push(x)) == label_bytes(t[0]) + (labels_bytes(t.drop_first())
            + label_bytes(x)));
        assert(labels_bytes(t.push(x)) =~= labels_bytes(t) + label_bytes(x));
    }
}

/// Appending one estimator extends the encoding by that estimator's bytes.
proof fn lemma_stats_bytes_push(t: Seq<GaussianClassification>, x: GaussianClassification)
    ensures
        stats_bytes(t.push(x)) == stats_bytes(t) + stat_bytes(x),
    decreases t.len(),
{
    if t.len() == 0 {
        assert(t.push(x)[0] == x);
        assert(t.push(x).drop_first() =~= Seq::<GaussianClassification>::empty());
        assert(stats_bytes(t.push(x)) == stat_bytes(x) + stats_bytes(
            Seq::<GaussianClassification>::empty(),
        ));
        assert(stats_bytes(t.push(x)) =~= stats_bytes(t) + stat_bytes(x));
    } else {
        assert(t.push(x)[0] == t[0]);
        assert(t.push(x).drop_first() =~= t.drop_first().push(x));
        lemma_stats_bytes_push(t.drop_first(), x);
        assert(stats_bytes(t.push(x)) == stat_bytes(t[0]) + (stats_bytes(t.drop_first())
            + stat_bytes(x)));
        assert(stats_bytes(t.push(x)) =~= stats_bytes(t) + stat_bytes(x));
    }
}

/// Appending one feature extends the encoding by that feature's bytes.
proof fn lemma_features_bytes_push(t: Seq<FeatureView>, x: FeatureView)
    ensures
        features_bytes(t.push(x)) == features_bytes(t) + feature_bytes(x),
    decreases t.len(),
{
    if t.len() == 0 {
        assert(t.push(x)[0] == x);
        assert(t.push(x).drop_first() =~= Seq::<FeatureView>::empty());
        assert(features_bytes(t.push(x)) == feature_bytes(x) + features_bytes(
            Seq::<FeatureView>::empty(),
        ));
        assert(features_bytes(t.push(x)) =~= features_bytes(t) + feature_bytes(x));
    } else {
        assert(t.push(x)[0] == t[0]);
        assert(t.push(x).drop_first() =~= t.drop_first().push(x));
        lemma_features_bytes_push(t.drop_first(), x);
        assert(features_bytes(t.push(x)) == feature_bytes(t[0]) + (features_bytes(t.drop_first())
            + feature_bytes(x)));
        assert(features_bytes(t.push(x)) =~= features_bytes(t) + feature_bytes(x));
    }
}

/// Serializes the model's full state - labels, flags, counts, and every
/// mean and deviation bit pattern - to its textual encoding.
pub fn save(model: &GaussianNaiveBayes) -> (bytes: Vec<u8>)
    ensures
        bytes@ == encode_spec(model@),
{
    let ghost fviews = model.features@.map_values(|g: GaussianFeature| g@);
    let mut out: Vec<u8> = Vec::new();
    let num_labels = model.labels.len();
    push_word(&mut out, num_labels as u64);
    let ghost head = word_hex((num_labels as u64));
    proof {
        assert(out@ =~= head + labels_bytes(model.labels@.take(0)));
    }
    let mut i: usize = 0;
    while i < num_labels
        invariant
            num_labels == model.labels@.len(),
            i <= num_labels,
            head == word_hex((num_labels as u64)),
            out@ == head + labels_bytes(model.labels@.take(i as int)),
        decreases num_labels - i,
    {
        let label = &model.labels[i];
        push_word(&mut out, label.get_index() as u64);
        push_word(&mut out, label.get_ascii() as u64);
        proof {
            let l = model.labels@[i as int];
            assert(model.labels@.take(i as int + 1) =~= model.labels@.take(i as int).push(l));
            lemma_labels_bytes_push(model.labels@.take(i as int), l);
            assert(out@ =~= head + labels_bytes(model.labels@.take(i as int + 1)));
        }
        i = i + 1;
    }
    proof {
        assert(model.labels@.take(num_labels as int) =~= model.labels@);
    }
    let ghost head2 = head + labels_bytes(model.labels@);
    let num_features = model.features.len();
    push_word(&mut out, num_features as u64);
    let ghost head3 = head2 + word_hex((num_features as u64));
    proof {
        assert(out@ =~= head3 + features_bytes(fviews.take(0)));
    }
    let mut f: usize = 0;
    while f < num_features
        invariant
            num_features == model.features@.len(),
            fviews == model.features@.map_values(|g: GaussianFeature| g@),
            fviews.len() == num_features,
            f <= num_features,
            head3 == head + labels_bytes(model.labels@) + word_hex((num_features as u64)),
            head == word_hex((model.labels@.len() as u64)),
            num_labels == model.labels@.len(),
            out@ == head3 + features_bytes(fviews.take(f as int)),
        decreases num_features - f,
    {
        let feature = &model.features[f];
        let flag: u64 = if feature.is_trained() {
            1
        } else {
            0
        };
        push_word(&mut out, flag);
        push_word(&mut out, feature.sample_size as u64);
        let num_classes = feature.classifications.len();
        push_word(&mut out, num_classes as u64);
        let ghost fbase = head3 + features_bytes(fviews.take(f as int)) + word_hex(flag)
            + word_hex((feature.sample_size as u64)) + word_hex((num_classes as u64));
        proof {
            assert(out@ =~= fbase + stats_bytes(feature.classifications@.take(0)));
        }
        let mut c: usize = 0;
        while c < num_classes
            invariant
                num_classes == feature.classifications@.len(),
                c <= num_classes,
                out@ == fbase + stats_bytes(feature.classifications@.take(c as int)),
            decreases num_classes - c,
        {
            let stat = &feature.classifications[c];
            push_word(&mut out, stat.get_mean());
            push_word(&mut out, stat.get_std());
            push_word(&mut out, stat.get_sample_size() as u64);
            push_word(&mut out, stat.get_square_mean_diffs());
            proof {
                let s = feature.classifications@[c as int];
                assert(feature.classifications@.take(c as int + 1)
                    =~= feature.classifications@.take(c as int).push(s));
                lemma_stats_bytes_push(feature.classifications@.take(c as int), s);
                assert(out@ =~= fbase + stats_bytes(feature.classifications@.take(c as int + 1)));
            }
            c = c + 1;
        }
        proof {
            let fv = fviews[f as int];
            assert(feature.classifications@.take(num_classes as int)
                =~= feature.classifications@);
            assert(fv == feature@);
            assert(flag == bool_word(fv.is_trained));
            assert(fviews.take(f as int + 1) =~= fviews.take(f as int).push(fv));
            lemma_features_bytes_push(fviews.take(f as int), fv);
            assert(out@ =~= head3 + features_bytes(fviews.take(f as int + 1)));
        }
        f = f + 1;
    }
    proof {
        assert(fviews.take(num_features as int) =~= fviews);
        assert(out@ =~= encode_spec(model@));
    }
    out
}

/// Reads `count` labels starting at `start`, as `parse_labels` describes.
fn read_labels(bytes: &Vec<u8>, start: usize, count: usize) -> (r: Option<(Vec<ClassLabel>, usize)>)
    requires
        start <= bytes@.len(),
    ensures
        match r {
            Some(p) => p.1 <= bytes@.len() && parse_labels(bytes@.skip(start as int), count as nat)
                == Some((p.0@, bytes@.skip(p.1 as int))),
            None => parse_labels(bytes@.skip(start as int), count as nat) is None,
        },
{
    let n = bytes.len();
    let mut built: Vec<ClassLabel> = Vec::new();
    let mut pos: usize = start;
    let mut i: usize = 0;
    while i < count
        invariant
            n == bytes@.len(),
            i <= count,
            pos <= n,
            built@.len() == i,
            match parse_labels(bytes@.skip(pos as int), (count - i) as nat) {
                Option::None => parse_labels(bytes@.skip(start as int), count as nat) is None,
                Option::Some(pr) => parse_labels(bytes@.skip(start as int), count as nat) == Some(
                    (built@ + pr.0, pr.1),
                ),
            },
        decreases count - i,
    {
        let iw = match read_word(bytes, pos) {
            Some(w) => w,
            None => {
                return None;
            },
        };
        if iw > usize::MAX as u64 {
            return None;
        }
        let p1 = pos + 16;
        let aw = match read_word(bytes, p1) {
            Some(w) => w,
            None => {
                return None;
            },
        };
        if aw > 255 {
            return None;
        }
        let p2 = p1 + 16;
        let label = ClassLabel::new(iw as usize, aw as u8);
        built.push(label);
        proof {
            match parse_labels(bytes@.skip(p2 as int), (count - i - 1) as nat) {
                Option::None => {},
                Option::Some(pr) => {
                    assert(built@ =~= built@.subrange(0, built@.len() - 1).push(label));
                    assert(built@.subrange(0, built@.len() - 1) + (seq![label] + pr.0) =~= built@
                        + pr.0);
                },
            }
        }
        pos = p2;
        i = i + 1;
    }
    proof {
        assert(built@ + Seq::<ClassLabel>::empty() =~= built@);
    }
    Some((built, pos))
}

/// Reads `count` estimators starting at `start`, as `parse_stats`
/// describes.
fn read_stats(bytes: &Vec<u8>, start: usize, count: usize) -> (r: Option<
    (Vec<GaussianClassification>, usize),
>)
    requires
        start <= bytes@.len(),
    ensures
        match r {
            Some(p) => p.1 <= bytes@.len() && parse_stats(bytes@.skip(start as int), count as nat)
                == Some((p.0@, bytes@.skip(p.1 as int))),
            None => parse_stats(bytes@.skip(start as int), count as nat) is None,
        },
{
    let n = bytes.len();
    let mut built: Vec<GaussianClassification> = Vec::new();
    let mut pos: usize = start;
    let mut i: usize = 0;
    while i < count
        invariant
            n == bytes@.len(),
            i <= count,
            pos <= n,
            built@.len() == i,
            match parse_stats(bytes@.skip(pos as int), (count - i) as nat) {
                Option::None => parse_stats(bytes@.skip(start as int), count as nat) is None,
                Option::Some(pr) => parse_stats(bytes@.skip(start as int), count as nat) == Some(
                    (built@ + pr.0, pr.1),
                ),
            },
        decreases count - i,
    {
        let mw = match read_word(bytes, pos) {
            Some(w) => w,
            None => {
                return None;
            },
        };
        let p1 = pos + 16;
        let dw = match read_word(bytes, p1) {
            Some(w) => w,
            None => {
                return None;
            },
        };
        let p2 = p1 + 16;
        let nw = match read_word(bytes, p2) {
            Some(w) => w,
            None => {
                return None;
            },
        };
        if nw > usize::MAX as u64 {
            return None;
        }
        let p3 = p2 + 16;
        let qw = match read_word(bytes, p3) {
            Some(w) => w,
            None => {
                return None;
            },
        };
        let p4 = p3 + 16;
        let stat = GaussianClassification {
            mean: mw,
            std: dw,
            sample_size: nw as usize,
            square_mean_diffs: qw,
        };
        built.push(stat);
        proof {
            match parse_stats(bytes@.skip(p4 as int), (count - i - 1) as nat) {
                Option::None => {},
                Option::Some(pr) => {
                    assert(built@ =~= built@.subrange(0, built@.len() - 1).push(stat));
                    assert(built@.subrange(0, built@.len() - 1) + (seq![stat] + pr.0) =~= built@
                        + pr.0);
                },
            }
        }
        pos = p4;
        i = i + 1;
    }
    proof {
        assert(built@ + Seq::<GaussianClassification>::empty() =~= built@);
    }
    Some((built, pos))
}

/// Reads `count` features starting at `start`, as `parse_features`
/// describes.
fn read_features(bytes: &Vec<u8>, start: usize, count: usize) -> (r: Option<
    (Vec<GaussianFeature>, usize),
>)
    requires
        start <= bytes@.len(),
    ensures
        match r {
            Some(p) => p.1 <= bytes@.len() && parse_features(
                bytes@.skip(start as int),
                count as nat,
            ) == Some((p.0@.map_values(|g: GaussianFeature| g@), bytes@.skip(p.1 as int))),
            None => parse_features(bytes@.skip(start as int), count as nat) is None,
        },
{
    let n = bytes.len();
    let mut built: Vec<GaussianFeature> = Vec::new();
    let mut pos: usize = start;
    let mut i: usize = 0;
    while i < count
        invariant
            n == bytes@.len(),
            i <= count,
            pos <= n,
            built@.len() == i,
            match parse_features(bytes@.skip(pos as int), (count - i) as nat) {
                Option::None => parse_features(bytes@.skip(start as int), count as nat) is None,
                Option::Some(pr) => parse_features(bytes@.skip(start as int), count as nat)
                    == Some((built@.map_values(|g: GaussianFeature| g@) + pr.0, pr.1)),
            },
        decreases count - i,
    {
        let tw = match read_word(bytes, pos) {
            Some(w) => w,
            None => {
                return None;
            },
        };
        if tw > 1 {
            return None;
        }
        let p1 = pos + 16;
        let nw = match read_word(bytes, p1) {
            Some(w) => w,
            None => {
                return None;
            },
        };
        if nw > usize::MAX as u64 {
            return None;
        }
        let p2 = p1 + 16;
        let cw = match read_word(bytes, p2) {
            Some(w) => w,
            None => {
                return None;
            },
        };
        if cw > usize::MAX as u64 {
            return None;
        }
        let p3 = p2 + 16;
        let (stats, p4) = match read_stats(bytes, p3, cw as usize) {
            Some(p) => p,
            None => {
                return None;
            },
        };
        let feature = GaussianFeature {
            is_trained: tw == 1,
            sample_size: nw as usize,
            classifications: stats,
        };
        built.push(feature);
        proof {
            match parse_features(bytes@.skip(p4 as int), (count - i - 1) as nat) {
                Option::None => {},
                Option::Some(pr) => {
                    let fmap = |g: GaussianFeature| g@;
                    assert(built@.map_values(fmap) =~= built@.subrange(
                        0,
                        built@.len() - 1,
                    ).map_values(fmap).push(feature@));
                    assert(built@.subrange(0, built@.len() - 1).map_values(fmap) + (seq![feature@]
                        + pr.0) =~= built@.map_values(fmap) + pr.0);
                },
            }
        }
        pos = p4;
        i = i + 1;
    }
    proof {
        assert(built@.map_values(|g: GaussianFeature| g@) + Seq::<FeatureView>::empty()
            =~= built@.map_values(|g: GaussianFeature| g@));
    }
    Some((built, pos))
}

/// Deserializes a model from its textual encoding, restoring the saved
/// state bit for bit; bytes that are not exactly the encoding of a model
/// are refused with `SerializationError`.  The `trained` flags travel
/// with the model, so a loaded model classifies at once, without another
/// `prepare`.
pub fn load(bytes: &Vec<u8>) -> (r: Result<GaussianNaiveBayes, ModelError>)
    ensures
        match r {
            Ok(m) => decode_spec(bytes@) == Some(m@),
            Err(e) => e == ModelError::SerializationError && decode_spec(bytes@) is None,
        },
{
    proof {
        assert(bytes@.skip(0) =~= bytes@);
    }
    let n = bytes.len();
    let lw = match read_word(bytes, 0) {
        Some(w) => w,
        None => {
            return Err(ModelError::SerializationError);
        },
    };
    if lw > usize::MAX as u64 {
        return Err(ModelError::SerializationError);
    }
    let (labels, p1) = match read_labels(bytes, 16, lw as usize) {
        Some(p) => p,
        None => {
            return Err(ModelError::SerializationError);
        },
    };
    let fw = match read_word(bytes, p1) {
        Some(w) => w,
        None => {
            return Err(ModelError::SerializationError);
        },
    };
    if fw > usize::MAX as u64 {
        return Err(ModelError::SerializationError);
    }
    let p2 = p1 + 16;
    let (features, p3) = match read_features(bytes, p2, fw as usize) {
        Some(p) => p,
        None => {
            return Err(ModelError::SerializationError);
        },
    };
    if p3 != bytes.len() {
        proof {
            assert(bytes@.skip(p3 as int).len() != 0);
        }
        return Err(ModelError::SerializationError);
    }
    proof {
        assert(bytes@.skip(p3 as int).len() == 0);
    }
    Ok(GaussianNaiveBayes { labels, features })
}

} // verus!
