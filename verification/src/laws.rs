use vstd::prelude::*;

use crate::decimal::lemma_parse_of_dec;
use crate::decode::{
    bytes_vals, dec_fields, dec_seq, dec_slots, first_bad_key, first_flag_err, flag_present,
    json_to_val_spec, key_dup, lemma_lookup_entry_first, lookup_entry, sel_flags,
};
use crate::fpbits::{lemma_f32_bits_of_int_finite, lemma_f64_bits_of_int_finite};
use crate::error::DecodeErrorS;
use crate::fpbits::{
    is_finite32, is_finite64, is_nan32, is_nan64, sign32, sign64, F32_INF_BITS, F32_NAN_BITS,
    F32_NEG_INF_BITS, F64_INF_BITS, F64_NAN_BITS, F64_NEG_INF_BITS,
};
use crate::json::JsonS;
use crate::model::{
    canonical, case_names, distinct_strs, encodes_to_null, has_type, is_subsequence, record_names,
    type_wf, TypeS, ValS,
};
use crate::ser::{fields_enc, flags_enc, lemma_fields_enc, lemma_flags_enc, lemma_seq_enc, opt_enc,
    seq_enc, val_to_json_spec};
use crate::strutil::{index_of_str, lemma_index_of_str, lemma_index_of_str_first};
use crate::type_ext::{
    default_val_spec, fields_default, is_defaultable, lemma_fields_default, lemma_slots_default,
    slots_default,
};

verus! {

/// Encoding any NaN double and decoding the result reproduces a NaN: the
/// external form is the string "NaN", which decodes to the canonical NaN
/// pattern. Infinities come back exactly, sign included.
pub proof fn lemma_float64_specials_round_trip(bits: u64)
    requires
        !crate::fpbits::is_finite64(bits),
    ensures
        is_nan64(bits) ==> json_to_val_spec(TypeS::Float64, val_to_json_spec(ValS::Float64(bits)))
            == Ok::<ValS, DecodeErrorS>(ValS::Float64(F64_NAN_BITS)),
        !is_nan64(bits) && sign64(bits) == 0 ==> json_to_val_spec(
            TypeS::Float64,
            val_to_json_spec(ValS::Float64(bits)),
        ) == Ok::<ValS, DecodeErrorS>(ValS::Float64(F64_INF_BITS)) && bits == F64_INF_BITS,
        !is_nan64(bits) && sign64(bits) == 1 ==> json_to_val_spec(
            TypeS::Float64,
            val_to_json_spec(ValS::Float64(bits)),
        ) == Ok::<ValS, DecodeErrorS>(ValS::Float64(F64_NEG_INF_BITS)) && bits == F64_NEG_INF_BITS,
{
    let j = val_to_json_spec(ValS::Float64(bits));
    reveal_strlit("NaN");
    reveal_strlit("Infinity");
    reveal_strlit("-Infinity");
    assert("NaN"@ != "Infinity"@) by {
        assert("NaN"@.len() == 3);
        assert("Infinity"@.len() == 8);
    }
    assert("NaN"@ != "-Infinity"@) by {
        assert("NaN"@.len() == 3);
        assert("-Infinity"@.len() == 9);
    }
    assert("Infinity"@ != "-Infinity"@) by {
        assert("Infinity"@.len() == 8);
        assert("-Infinity"@.len() == 9);
    }
    if !is_nan64(bits) {
        if sign64(bits) == 0 {
            assert(bits == F64_INF_BITS);
        } else {
            assert(sign64(bits) == 1);
            assert(bits == F64_NEG_INF_BITS);
        }
    }
}


/// A value encodes to `null` exactly when it is a chain of `some` ending
/// in `none`.
pub proof fn lemma_null_enc(v: ValS)
    ensures
        (val_to_json_spec(v) == JsonS::Null) == encodes_to_null(v),
    decreases v,
{
    match v {
        ValS::Option(Some(b)) => {
            lemma_null_enc(*b);
        },
        _ => {},
    }
}

/// Subsequence elements are elements of the full sequence.
pub proof fn lemma_subseq_contains(a: Seq<Seq<char>>, full: Seq<Seq<char>>, n: Seq<char>)
    requires
        is_subsequence(a, full),
        a.contains(n),
    ensures
        full.contains(n),
    decreases full.len(),
{
    if a.len() > 0 && full.len() > 0 {
        if a[0] == full[0] {
            if a[0] == n {
                assert(full[0] == n);
            } else {
                let k = choose|k: int| 0 <= k < a.len() && a[k] == n;
                assert(a.drop_first()[k - 1] == n);
                lemma_subseq_contains(a.drop_first(), full.drop_first(), n);
                let m = choose|m: int| 0 <= m < full.drop_first().len() && full.drop_first()[m] == n;
                assert(full[m + 1] == n);
            }
        } else {
            lemma_subseq_contains(a, full.drop_first(), n);
            let m = choose|m: int| 0 <= m < full.drop_first().len() && full.drop_first()[m] == n;
            assert(full[m + 1] == n);
        }
    }
}

/// Two subsequences of a duplicate-free sequence that hold the same
/// elements are the same sequence.
pub proof fn lemma_subseq_same(full: Seq<Seq<char>>, a: Seq<Seq<char>>, b: Seq<Seq<char>>)
    requires
        distinct_strs(full),
        is_subsequence(a, full),
        is_subsequence(b, full),
        forall|n: Seq<char>| a.contains(n) == b.contains(n),
    ensures
        a == b,
    decreases full.len(),
{
    if full.len() == 0 {
        assert(a =~= b);
    } else {
        let f0 = full[0];
        let ftl = full.drop_first();
        assert(distinct_strs(ftl)) by {
            assert forall|i: int, j: int| 0 <= i < j < ftl.len() implies ftl[i] != ftl[j] by {
                assert(full[i + 1] != full[j + 1]);
            }
        }
        assert(!ftl.contains(f0)) by {
            if ftl.contains(f0) {
                let m = choose|m: int| 0 <= m < ftl.len() && ftl[m] == f0;
                assert(full[m + 1] == full[0]);
            }
        }
        if a.len() > 0 && a[0] == f0 {
            assert(a.contains(f0));
            assert(b.contains(f0));
            if b.len() == 0 {
                assert(false);
            } else if b[0] != f0 {
                lemma_subseq_contains(b, ftl, f0);
                assert(false);
            }
            let atl = a.drop_first();
            let btl = b.drop_first();
            assert(!atl.contains(f0)) by {
                if atl.contains(f0) {
                    lemma_subseq_contains(atl, ftl, f0);
                }
            }
            assert(!btl.contains(f0)) by {
                if btl.contains(f0) {
                    lemma_subseq_contains(btl, ftl, f0);
                }
            }
            assert forall|n: Seq<char>| atl.contains(n) == btl.contains(n) by {
                if n == f0 {
                } else {
                    assert(atl.contains(n) == a.contains(n)) by {
                        if atl.contains(n) {
                            let k = choose|k: int| 0 <= k < atl.len() && atl[k] == n;
                            assert(a[k + 1] == n);
                        }
                        if a.contains(n) {
                            let k = choose|k: int| 0 <= k < a.len() && a[k] == n;
                            if k > 0 {
                                assert(atl[k - 1] == n);
                            }
                        }
                    }
                    assert(btl.contains(n) == b.contains(n)) by {
                        if btl.contains(n) {
                            let k = choose|k: int| 0 <= k < btl.len() && btl[k] == n;
                            assert(b[k + 1] == n);
                        }
                        if b.contains(n) {
                            let k = choose|k: int| 0 <= k < b.len() && b[k] == n;
                            if k > 0 {
                                assert(btl[k - 1] == n);
                            }
                        }
                    }
                }
            }
            lemma_subseq_same(ftl, atl, btl);
            assert(a.len() == b.len());
            assert forall|q: int| 0 <= q < a.len() implies a[q] == b[q] by {
                if q > 0 {
                    assert(a[q] == atl[q - 1]);
                    assert(b[q] == btl[q - 1]);
                }
            }
            assert(a =~= b);
        } else {
            assert(is_subsequence(a, ftl));
            assert(!a.contains(f0)) by {
                if a.contains(f0) {
                    lemma_subseq_contains(a, ftl, f0);
                }
            }
            assert(!b.contains(f0));
            if b.len() > 0 && b[0] == f0 {
                assert(b.contains(f0));
                assert(false);
            }
            assert(is_subsequence(b, ftl));
            lemma_subseq_same(ftl, a, b);
        }
    }
}

/// Appending to the full sequence preserves a subsequence.
pub proof fn lemma_subseq_extend(s: Seq<Seq<char>>, p: Seq<Seq<char>>, x: Seq<char>)
    requires
        is_subsequence(s, p),
    ensures
        is_subsequence(s, p.push(x)),
        is_subsequence(s.push(x), p.push(x)),
    decreases p.len(),
{
    if s.len() == 0 {
        if p.len() == 0 {
            assert(s.push(x)[0] == x && p.push(x)[0] == x);
            assert(s.push(x).drop_first() =~= Seq::<Seq<char>>::empty());
            assert(p.push(x).drop_first() =~= Seq::<Seq<char>>::empty());
            assert(is_subsequence(s.push(x).drop_first(), p.push(x).drop_first()));
            assert(is_subsequence(s.push(x), p.push(x)));
        } else {
            assert(p.push(x).drop_first() =~= p.drop_first().push(x));
            lemma_subseq_extend(s, p.drop_first(), x);
            if s.push(x)[0] == p.push(x)[0] {
                assert(s.push(x).drop_first() =~= Seq::<Seq<char>>::empty());
                assert(is_subsequence(s.push(x).drop_first(), p.push(x).drop_first()));
                assert(is_subsequence(s.push(x), p.push(x)));
            } else {
                assert(is_subsequence(s.push(x), p.drop_first().push(x)));
                assert(is_subsequence(s.push(x), p.push(x)));
            }
        }
    } else {
        assert(p.len() > 0);
        assert(p.push(x).drop_first() =~= p.drop_first().push(x));
        assert(s.push(x)[0] == s[0]);
        assert(p.push(x)[0] == p[0]);
        if s[0] == p[0] {
            assert(s.push(x).drop_first() =~= s.drop_first().push(x));
            lemma_subseq_extend(s.drop_first(), p.drop_first(), x);
        } else {
            lemma_subseq_extend(s, p.drop_first(), x);
        }
    }
}

/// What the flag selection holds: a subsequence of the first `i` declared
/// names, containing exactly the present ones.
pub proof fn lemma_sel_flags_shape(names: Seq<Seq<char>>, els: Seq<JsonS>, i: int)
    requires
        0 <= i <= names.len(),
    ensures
        is_subsequence(sel_flags(names, els, i), names.subrange(0, i)),
        forall|n: Seq<char>|
            #[trigger] sel_flags(names, els, i).contains(n) == (exists|k: int|
                0 <= k < i && names[k] == n && flag_present(els, n)),
    decreases i,
{
    let cur = sel_flags(names, els, i);
    if i == 0 {
        assert(names.subrange(0, 0) =~= Seq::<Seq<char>>::empty());
        assert forall|n: Seq<char>| #[trigger] cur.contains(n) == (exists|k: int|
            0 <= k < 0 && names[k] == n && flag_present(els, n)) by {
            if cur.contains(n) {
                let q = choose|q: int| 0 <= q < cur.len() && cur[q] == n;
            }
        }
    } else {
        lemma_sel_flags_shape(names, els, i - 1);
        let prev = sel_flags(names, els, i - 1);
        assert(names.subrange(0, i) =~= names.subrange(0, i - 1).push(names[i - 1]));
        if flag_present(els, names[i - 1]) {
            assert(cur =~= prev.push(names[i - 1]));
            lemma_subseq_extend(prev, names.subrange(0, i - 1), names[i - 1]);
        } else {
            assert(cur =~= prev);
            lemma_subseq_extend(prev, names.subrange(0, i - 1), names[i - 1]);
        }
        assert forall|n: Seq<char>| #[trigger] cur.contains(n) == (exists|k: int|
            0 <= k < i && names[k] == n && flag_present(els, n)) by {
            if cur.contains(n) {
                let q = choose|q: int| 0 <= q < cur.len() && cur[q] == n;
                if q < prev.len() {
                    assert(prev[q] == n);
                    assert(prev.contains(n));
                } else {
                    assert(n == names[i - 1]);
                    assert(flag_present(els, n));
                }
            }
            if exists|k: int| 0 <= k < i && names[k] == n && flag_present(els, n) {
                let k = choose|k: int| 0 <= k < i && names[k] == n && flag_present(els, n);
                if k < i - 1 {
                    assert(prev.contains(n));
                    let q = choose|q: int| 0 <= q < prev.len() && prev[q] == n;
                    assert(cur[q] == n);
                } else {
                    assert(cur[cur.len() - 1] == n);
                }
            }
        }
    }
}

/// No input element built from declared names is ever reported bad.
pub proof fn lemma_flags_err_none(names: Seq<Seq<char>>, sel: Seq<Seq<char>>, i: int)
    requires
        0 <= i <= sel.len(),
        forall|k: int| 0 <= k < sel.len() ==> names.contains(#[trigger] sel[k]),
    ensures
        first_flag_err(names, flags_enc(sel), i) is None,
    decreases sel.len() - i,
{
    lemma_flags_enc(sel);
    if i < sel.len() {
        assert(flags_enc(sel)[i] == JsonS::Str(sel[i]));
        lemma_index_of_str(names, sel[i], 0);
        if index_of_str(names, sel[i], 0) is None {
            let m = choose|m: int| 0 <= m < names.len() && names[m] == sel[i];
        }
        lemma_flags_err_none(names, sel, i + 1);
    }
}

/// A list or tuple of round-trippable elements round-trips elementwise.
pub proof fn lemma_rt_seq(et: TypeS, vs: Seq<ValS>, i: int)
    requires
        0 <= i <= vs.len(),
        type_wf(et),
        forall|j: int| 0 <= j < vs.len() ==> has_type(#[trigger] vs[j], et),
        forall|j: int| 0 <= j < vs.len() ==> canonical(#[trigger] vs[j]),
    ensures
        dec_seq(et, seq_enc(vs), i) == Ok::<Seq<ValS>, DecodeErrorS>(vs.subrange(i, vs.len() as int)),
    decreases et, 1int, vs.len() - i,
{
    lemma_seq_enc(vs);
    if i >= vs.len() {
        assert(vs.subrange(i, vs.len() as int) =~= Seq::<ValS>::empty());
    } else {
        lemma_tree_round_trip(et, vs[i]);
        lemma_rt_seq(et, vs, i + 1);
        assert(seq![vs[i]] + vs.subrange(i + 1, vs.len() as int) =~= vs.subrange(
            i,
            vs.len() as int,
        ));
    }
}

pub proof fn lemma_rt_slots(slots: Seq<TypeS>, vs: Seq<ValS>, i: int)
    requires
        0 <= i <= slots.len(),
        vs.len() == slots.len(),
        forall|j: int| 0 <= j < slots.len() ==> type_wf(#[trigger] slots[j]),
        forall|j: int| 0 <= j < slots.len() ==> has_type(#[trigger] vs[j], slots[j]),
        forall|j: int| 0 <= j < vs.len() ==> canonical(#[trigger] vs[j]),
    ensures
        dec_slots(slots, seq_enc(vs), i) == Ok::<Seq<ValS>, DecodeErrorS>(
            vs.subrange(i, vs.len() as int),
        ),
    decreases slots, 1int, slots.len() - i,
{
    lemma_seq_enc(vs);
    if i >= slots.len() {
        assert(vs.subrange(i, vs.len() as int) =~= Seq::<ValS>::empty());
    } else {
        lemma_tree_round_trip(slots[i], vs[i]);
        lemma_rt_slots(slots, vs, i + 1);
        assert(seq![vs[i]] + vs.subrange(i + 1, vs.len() as int) =~= vs.subrange(
            i,
            vs.len() as int,
        ));
    }
}

/// The encoded object of a record has exactly the declared keys, so the
/// key scan accepts it.
pub proof fn lemma_rt_badkey(
    fields: Seq<(Seq<char>, TypeS)>,
    fvals: Seq<(Seq<char>, ValS)>,
    i: int,
)
    requires
        0 <= i <= fvals.len(),
        fvals.len() == fields.len(),
        distinct_strs(record_names(fields)),
        forall|j: int| 0 <= j < fields.len() ==> (#[trigger] fvals[j]).0 == fields[j].0,
    ensures
        first_bad_key(record_names(fields), fields_enc(fvals), i) is None,
    decreases fvals.len() - i,
{
    lemma_fields_enc(fvals);
    let names = record_names(fields);
    let entries = fields_enc(fvals);
    if i < fvals.len() {
        assert(entries[i].0 == names[i]);
        lemma_index_of_str_first(names, names[i], i);
        assert(!key_dup(entries, i)) by {
            if key_dup(entries, i) {
                let k = choose|k: int| 0 <= k < i && entries[k].0 == entries[i].0;
                assert(names[k] != names[i]);
            }
        }
        lemma_rt_badkey(fields, fvals, i + 1);
    }
}

/// Decoding the encoded fields reproduces them, in declaration order.
pub proof fn lemma_rt_fields(
    fields: Seq<(Seq<char>, TypeS)>,
    fvals: Seq<(Seq<char>, ValS)>,
    i: int,
)
    requires
        0 <= i <= fields.len(),
        fvals.len() == fields.len(),
        distinct_strs(record_names(fields)),
        forall|j: int| 0 <= j < fields.len() ==> (#[trigger] fvals[j]).0 == fields[j].0,
        forall|j: int| 0 <= j < fields.len() ==> type_wf((#[trigger] fields[j]).1),
        forall|j: int| 0 <= j < fields.len() ==> has_type((#[trigger] fvals[j]).1, fields[j].1),
        forall|j: int| 0 <= j < fields.len() ==> canonical((#[trigger] fvals[j]).1),
    ensures
        dec_fields(fields, fields_enc(fvals), i) == Ok::<Seq<(Seq<char>, ValS)>, DecodeErrorS>(
            fvals.subrange(i, fvals.len() as int),
        ),
    decreases fields, 1int, fields.len() - i,
{
    lemma_fields_enc(fvals);
    let names = record_names(fields);
    let entries = fields_enc(fvals);
    if i >= fields.len() {
        assert(fvals.subrange(i, fvals.len() as int) =~= Seq::<(Seq<char>, ValS)>::empty());
    } else {
        assert forall|j: int| 0 <= j < i implies entries[j].0 != fields[i].0 by {
            assert(names[j] != names[i as int]);
        }
        lemma_lookup_entry_first(entries, fields[i].0, i);
        assert(lookup_entry(entries, fields[i].0, 0) == Some(
            val_to_json_spec(fvals[i].1),
        ));
        lemma_tree_round_trip(fields[i].1, fvals[i].1);
        lemma_rt_fields(fields, fvals, i + 1);
        assert(seq![(fields[i].0, fvals[i].1)] + fvals.subrange(i + 1, fvals.len() as int)
            =~= fvals.subrange(i, fvals.len() as int));
    }
}

/// Round trip: decoding the encoding of any canonical well-typed value
/// under its own descriptor gives the value back. Canonicality excludes
/// only the collisions the external form cannot express: non-canonical
/// NaN payloads (every NaN is spelled "NaN") and a `some` whose inner
/// value itself encodes to `null`.
pub proof fn lemma_tree_round_trip(t: TypeS, v: ValS)
    requires
        type_wf(t),
        has_type(v, t),
        canonical(v),
    ensures
        json_to_val_spec(t, val_to_json_spec(v)) == Ok::<ValS, DecodeErrorS>(v),
    decreases t, 0int, 0int,
{
    reveal_strlit("NaN");
    reveal_strlit("Infinity");
    reveal_strlit("-Infinity");
    reveal_strlit("result");
    reveal_strlit("error");
    match t {
        TypeS::Float32 => {
            let bits = v->Float32_0;
            if is_finite32(bits) {
            } else {
                assert("NaN"@.len() == 3 && "Infinity"@.len() == 8 && "-Infinity"@.len() == 9);
                if is_nan32(bits) {
                    assert(bits == F32_NAN_BITS);
                } else if sign32(bits) == 0 {
                    assert(bits == F32_INF_BITS);
                } else {
                    assert(sign32(bits) == 1);
                    assert(bits == F32_NEG_INF_BITS);
                }
            }
            assert(json_to_val_spec(t, val_to_json_spec(v)) == Ok::<ValS, DecodeErrorS>(v));
        },
        TypeS::Float64 => {
            let bits = v->Float64_0;
            if is_finite64(bits) {
            } else {
                assert("NaN"@.len() == 3 && "Infinity"@.len() == 8 && "-Infinity"@.len() == 9);
                if is_nan64(bits) {
                    assert(bits == F64_NAN_BITS);
                } else if sign64(bits) == 0 {
                    assert(bits == F64_INF_BITS);
                } else {
                    assert(sign64(bits) == 1);
                    assert(bits == F64_NEG_INF_BITS);
                }
            }
            assert(json_to_val_spec(t, val_to_json_spec(v)) == Ok::<ValS, DecodeErrorS>(v));
        },
        TypeS::List(et) => {
            let vs = v->List_0;
            lemma_rt_seq(*et, vs, 0);
            assert(vs.subrange(0, vs.len() as int) =~= vs);
            lemma_seq_enc(vs);
            if *et == TypeS::U8 {
            }
            assert(json_to_val_spec(t, val_to_json_spec(v)) == Ok::<ValS, DecodeErrorS>(v));
        },
        TypeS::Record(fields) => {
            let fvals = v->Record_0;
            lemma_rt_badkey(fields, fvals, 0);
            lemma_rt_fields(fields, fvals, 0);
            assert(fvals.subrange(0, fvals.len() as int) =~= fvals);
            assert(json_to_val_spec(t, val_to_json_spec(v)) == Ok::<ValS, DecodeErrorS>(v));
        },
        TypeS::Tuple(slots) => {
            let vs = v->Tuple_0;
            lemma_seq_enc(vs);
            lemma_rt_slots(slots, vs, 0);
            assert(vs.subrange(0, vs.len() as int) =~= vs);
            assert(json_to_val_spec(t, val_to_json_spec(v)) == Ok::<ValS, DecodeErrorS>(v));
        },
        TypeS::Variant(cases) => {
            let name = v->Variant_0;
            let payload = v->Variant_1;
            let names = case_names(cases);
            let wi = choose|wi: int|
                0 <= wi < cases.len() && (#[trigger] cases[wi]).0 == name && (match (
                    cases[wi].1,
                    payload,
                ) {
                    (Some(pt), Some(pv)) => has_type(*pv, pt),
                    (None, None) => true,
                    _ => false,
                });
            assert(names[wi] == name);
            assert forall|j: int| 0 <= j < wi implies names[j] != name by {}
            lemma_index_of_str_first(names, name, wi);
            match (cases[wi].1, payload) {
                (Some(pt), Some(pv)) => {
                    lemma_tree_round_trip(pt, *pv);
                    assert(val_to_json_spec(v) == JsonS::Obj(seq![(name, opt_enc(payload))]));
                    let entries = seq![(name, opt_enc(payload))];
                    assert(entries.len() == 1 && entries[0].0 == name && entries[0].1 == opt_enc(
                        payload,
                    ));
                    assert(opt_enc(payload) == val_to_json_spec(*pv));
                    assert(index_of_str(case_names(cases), entries[0].0, 0) == Some(wi));
                    assert(json_to_val_spec(pt, entries[0].1) == Ok::<ValS, DecodeErrorS>(*pv));
                    assert(json_to_val_spec(t, val_to_json_spec(v)) == Ok::<ValS, DecodeErrorS>(
                        ValS::Variant(entries[0].0, Some(Box::new(*pv))),
                    ));
                },
                (None, None) => {
                    assert(json_to_val_spec(t, val_to_json_spec(v)) == Ok::<ValS, DecodeErrorS>(v));
                },
                _ => {},
            }
            assert(json_to_val_spec(t, val_to_json_spec(v)) == Ok::<ValS, DecodeErrorS>(v));
        },
        TypeS::Enum(names) => {
            let name = v->Enum_0;
            let wi = choose|wi: int| 0 <= wi < names.len() && #[trigger] names[wi] == name;
            lemma_index_of_str(names, name, 0);
            if index_of_str(names, name, 0) is None {
                assert(names[wi] != name);
            }
            assert(json_to_val_spec(t, val_to_json_spec(v)) == Ok::<ValS, DecodeErrorS>(v));
        },
        TypeS::Union(cases) => {
            let idx = v->Union_0;
            let payload = v->Union_1;
            lemma_parse_of_dec(idx);
            lemma_tree_round_trip(cases[idx as int], *payload);
            assert(json_to_val_spec(t, val_to_json_spec(v)) == Ok::<ValS, DecodeErrorS>(v));
        },
        TypeS::Option(inner) => {
            match v->Option_0 {
                Some(b) => {
                    lemma_null_enc(*b);
                    lemma_tree_round_trip(*inner, *b);
                },
                None => {},
            }
            assert(json_to_val_spec(t, val_to_json_spec(v)) == Ok::<ValS, DecodeErrorS>(v));
        },
        TypeS::Result(ok, err) => {
            assert("result"@ != "error"@) by {
                assert("result"@.len() == 6 && "error"@.len() == 5);
            }
            match v->Result_0 {
                Ok(p) => {
                    let entries = seq![("result"@, opt_enc(p))];
                    assert(val_to_json_spec(v) == JsonS::Obj(entries));
                    assert(entries.len() == 1 && entries[0].0 == "result"@ && entries[0].1
                        == opt_enc(p));
                    match (ok, p) {
                        (Some(pt), Some(pv)) => {
                            lemma_tree_round_trip(*pt, *pv);
                            assert(opt_enc(p) == val_to_json_spec(*pv));
                            assert(json_to_val_spec(*pt, entries[0].1) == Ok::<
                                ValS,
                                DecodeErrorS,
                            >(*pv));
                        },
                        _ => {},
                    }
                },
                Err(p) => {
                    let entries = seq![("error"@, opt_enc(p))];
                    assert(val_to_json_spec(v) == JsonS::Obj(entries));
                    assert(entries.len() == 1 && entries[0].0 == "error"@ && entries[0].1
                        == opt_enc(p));
                    match (err, p) {
                        (Some(pt), Some(pv)) => {
                            lemma_tree_round_trip(*pt, *pv);
                            assert(opt_enc(p) == val_to_json_spec(*pv));
                            assert(json_to_val_spec(*pt, entries[0].1) == Ok::<
                                ValS,
                                DecodeErrorS,
                            >(*pv));
                        },
                        _ => {},
                    }
                },
            }
            assert(json_to_val_spec(t, val_to_json_spec(v)) == Ok::<ValS, DecodeErrorS>(v));
        },
        TypeS::Flags(names) => {
            let sel = v->Flags_0;
            let els = flags_enc(sel);
            lemma_flags_enc(sel);
            assert forall|k: int| 0 <= k < sel.len() implies names.contains(#[trigger] sel[k]) by {
                lemma_subseq_contains(sel, names, sel[k]);
            }
            lemma_flags_err_none(names, sel, 0);
            lemma_sel_flags_shape(names, els, names.len() as int);
            let got = sel_flags(names, els, names.len() as int);
            assert(names.subrange(0, names.len() as int) =~= names);
            assert forall|n: Seq<char>| got.contains(n) == sel.contains(n) by {
                assert(flag_present(els, n) == sel.contains(n)) by {
                    if flag_present(els, n) {
                        let k = choose|k: int| 0 <= k < els.len() && els[k] == JsonS::Str(n);
                        assert(els[k] == JsonS::Str(sel[k]));
                        assert(sel[k] == n);
                    }
                    if sel.contains(n) {
                        let k = choose|k: int| 0 <= k < sel.len() && sel[k] == n;
                        assert(els[k] == JsonS::Str(n));
                    }
                }
                if got.contains(n) {
                }
                if sel.contains(n) {
                    let k = choose|k: int| 0 <= k < sel.len() && sel[k] == n;
                    assert(names.contains(n));
                    let m = choose|m: int| 0 <= m < names.len() && names[m] == n;
                    assert(exists|q: int|
                        0 <= q < names.len() && names[q] == n && flag_present(els, n));
                }
            }
            lemma_subseq_same(names, got, sel);
            assert(json_to_val_spec(t, val_to_json_spec(v)) == Ok::<ValS, DecodeErrorS>(v));
        },
        _ => {
            assert(json_to_val_spec(t, val_to_json_spec(v)) == Ok::<ValS, DecodeErrorS>(v));
        },
    }
}


/// The synthesizer's output has exactly the shape of its descriptor: one
/// value per field and slot in order, the first declared case of every
/// sum, the `ok` side of a result.
pub proof fn lemma_default_has_type(t: TypeS)
    requires
        is_defaultable(t),
    ensures
        has_type(default_val_spec(t), t),
    decreases t,
{
    let v = default_val_spec(t);
    match t {
        TypeS::Record(fields) => {
            lemma_fields_default(fields);
            assert forall|i: int|
                0 <= i < fields.len() implies (#[trigger] fields_default(fields)[i]).0
                == fields[i].0 && has_type(fields_default(fields)[i].1, fields[i].1) by {
                lemma_default_has_type(fields[i].1);
            }
        },
        TypeS::Tuple(slots) => {
            lemma_slots_default(slots);
            assert forall|i: int|
                0 <= i < slots.len() implies has_type(
                #[trigger] slots_default(slots)[i],
                slots[i],
            ) by {
                lemma_default_has_type(slots[i]);
            }
        },
        TypeS::Variant(cases) => {
            match cases[0].1 {
                Some(pt) => {
                    lemma_default_has_type(pt);
                },
                None => {},
            }
            assert(0 <= 0 < cases.len() && cases[0].0 == v->Variant_0 && (match (
                cases[0].1,
                v->Variant_1,
            ) {
                (Some(pt), Some(pv)) => has_type(*pv, pt),
                (None, None) => true,
                _ => false,
            }));
        },
        TypeS::Enum(names) => {
            assert(0 <= 0 < names.len() && names[0] == v->Enum_0);
        },
        TypeS::Union(cases) => {
            lemma_default_has_type(cases[0]);
        },
        TypeS::Result(ok, _err) => {
            match ok {
                Some(pt) => {
                    lemma_default_has_type(*pt);
                },
                None => {},
            }
        },
        _ => {},
    }
}


/// Elementwise shape of a decoded list segment.
pub proof fn lemma_dec_seq_wt(et: TypeS, els: Seq<JsonS>, i: int)
    requires
        0 <= i <= els.len(),
    ensures
        dec_seq(et, els, i) matches Ok(vs) ==> vs.len() == els.len() - i && (forall|k: int|
            0 <= k < vs.len() ==> has_type(#[trigger] vs[k], et) && canonical(vs[k])),
    decreases et, 1int, els.len() - i,
{
    if i < els.len() {
        lemma_decode_well_typed(et, els[i]);
        lemma_dec_seq_wt(et, els, i + 1);
    }
}

pub proof fn lemma_dec_slots_wt(slots: Seq<TypeS>, els: Seq<JsonS>, i: int)
    requires
        0 <= i <= slots.len(),
    ensures
        dec_slots(slots, els, i) matches Ok(vs) ==> (els.len() == slots.len() ==> vs.len()
            == slots.len() - i && (forall|k: int|
            0 <= k < vs.len() ==> has_type(#[trigger] vs[k], slots[i + k]) && canonical(vs[k]))),
    decreases slots, 1int, slots.len() - i,
{
    if i < slots.len() && els.len() == slots.len() {
        lemma_decode_well_typed(slots[i], els[i]);
        lemma_dec_slots_wt(slots, els, i + 1);
    }
}

pub proof fn lemma_dec_fields_wt(
    fields: Seq<(Seq<char>, TypeS)>,
    entries: Seq<(Seq<char>, JsonS)>,
    i: int,
)
    requires
        0 <= i <= fields.len(),
    ensures
        dec_fields(fields, entries, i) matches Ok(fv) ==> fv.len() == fields.len() - i && (
        forall|k: int|
            0 <= k < fv.len() ==> (#[trigger] fv[k]).0 == fields[i + k].0 && has_type(
                fv[k].1,
                fields[i + k].1,
            ) && canonical(fv[k].1)),
    decreases fields, 1int, fields.len() - i,
{
    if i < fields.len() {
        let fj = match lookup_entry(entries, fields[i].0, 0) {
            Some(x) => x,
            None => JsonS::Null,
        };
        lemma_decode_well_typed(fields[i].1, fj);
        lemma_dec_fields_wt(fields, entries, i + 1);
    }
}

/// Whatever the decoder accepts has exactly the shape of its descriptor
/// and is canonical — no partial or mistyped value can come out of it.
/// A non-null input never decodes to a value that would encode as null.
pub proof fn lemma_decode_well_typed(t: TypeS, j: JsonS)
    ensures
        json_to_val_spec(t, j) matches Ok(v) ==> has_type(v, t) && canonical(v) && (j
            != JsonS::Null ==> !encodes_to_null(v)),
    decreases t, 0int, 0int,
{
    match t {
        TypeS::Float32 => {
            match j {
                JsonS::Num(n) => {
                    match n {
                        crate::json::JsonNum::UInt(u) => {
                            if u <= 0x7fff {
                                lemma_f32_bits_of_int_finite(u as int);
                            }
                        },
                        crate::json::JsonNum::Int(x) => {
                            if -0x8000 <= x <= 0x7fff {
                                lemma_f32_bits_of_int_finite(x as int);
                            }
                        },
                        _ => {},
                    }
                },
                _ => {},
            }
        },
        TypeS::Float64 => {
            match j {
                JsonS::Num(n) => {
                    match n {
                        crate::json::JsonNum::UInt(u) => {
                            if u <= 0x7fff_ffff {
                                lemma_f64_bits_of_int_finite(u as int);
                            }
                        },
                        crate::json::JsonNum::Int(x) => {
                            if -0x8000_0000 <= x <= 0x7fff_ffff {
                                lemma_f64_bits_of_int_finite(x as int);
                            }
                        },
                        _ => {},
                    }
                },
                _ => {},
            }
        },
        TypeS::List(et) => {
            match j {
                JsonS::Arr(els) => {
                    lemma_dec_seq_wt(*et, els, 0);
                },
                JsonS::Str(st) => {
                    if *et == TypeS::U8 {
                        match crate::b64::b64_decode_of(st) {
                            Some(bytes) => {
                                let vs = bytes_vals(bytes);
                                assert forall|k: int|
                                    0 <= k < vs.len() implies has_type(#[trigger] vs[k], *et)
                                    && canonical(vs[k]) by {
                                    assert(vs[k] == ValS::U8(bytes[k]));
                                }
                            },
                            None => {},
                        }
                    }
                },
                _ => {},
            }
        },
        TypeS::Record(fields) => {
            match j {
                JsonS::Obj(entries) => {
                    lemma_dec_fields_wt(fields, entries, 0);
                },
                _ => {},
            }
        },
        TypeS::Tuple(slots) => {
            match j {
                JsonS::Arr(els) => {
                    lemma_dec_slots_wt(slots, els, 0);
                },
                _ => {},
            }
        },
        TypeS::Variant(cases) => {
            match j {
                JsonS::Obj(entries) => {
                    if entries.len() == 1 {
                        let key = entries[0].0;
                        lemma_index_of_str(case_names(cases), key, 0);
                        match index_of_str(case_names(cases), key, 0) {
                            Some(ci) => {
                                if 0 <= ci < cases.len() {
                                    assert(case_names(cases)[ci] == key);
                                    match cases[ci].1 {
                                        Some(pt) => {
                                            lemma_decode_well_typed(pt, entries[0].1);
                                            match json_to_val_spec(pt, entries[0].1) {
                                                Ok(pv) => {
                                                    let v = ValS::Variant(
                                                        key,
                                                        Some(Box::new(pv)),
                                                    );
                                                    assert(0 <= ci < cases.len() && (
                                                    #[trigger] cases[ci]).0 == v->Variant_0
                                                        && has_type(pv, pt));
                                                },
                                                Err(_) => {},
                                            }
                                        },
                                        None => {
                                            let v = ValS::Variant(key, None);
                                            assert(0 <= ci < cases.len() && (
                                            #[trigger] cases[ci]).0 == v->Variant_0);
                                        },
                                    }
                                }
                            },
                            None => {},
                        }
                    }
                },
                _ => {},
            }
        },
        TypeS::Enum(names) => {
            match j {
                JsonS::Str(st) => {
                    lemma_index_of_str(names, st, 0);
                },
                _ => {},
            }
        },
        TypeS::Union(cases) => {
            match j {
                JsonS::Obj(entries) => {
                    if entries.len() == 1 {
                        match crate::decimal::parse_u32_spec(entries[0].0) {
                            Some(idx) => {
                                if idx < cases.len() {
                                    lemma_decode_well_typed(cases[idx as int], entries[0].1);
                                }
                            },
                            None => {},
                        }
                    }
                },
                _ => {},
            }
        },
        TypeS::Option(inner) => {
            if j != JsonS::Null {
                lemma_decode_well_typed(*inner, j);
            }
        },
        TypeS::Result(ok, err) => {
            match j {
                JsonS::Obj(entries) => {
                    if entries.len() == 1 {
                        match ok {
                            Some(pt) => {
                                lemma_decode_well_typed(*pt, entries[0].1);
                            },
                            None => {},
                        }
                        match err {
                            Some(pt) => {
                                lemma_decode_well_typed(*pt, entries[0].1);
                            },
                            None => {},
                        }
                    }
                },
                _ => {},
            }
        },
        TypeS::Flags(names) => {
            match j {
                JsonS::Arr(els) => {
                    lemma_sel_flags_shape(names, els, names.len() as int);
                    assert(names.subrange(0, names.len() as int) =~= names);
                },
                _ => {},
            }
        },
        _ => {},
    }
}


/// The streaming entry point inherits the round trip: a token run that
/// assembles exactly to the encoding of a canonical well-typed value
/// decodes to that value.
pub proof fn lemma_stream_round_trip(t: TypeS, v: ValS, toks: Seq<crate::stream::TokenS>)
    requires
        type_wf(t),
        has_type(v, t),
        canonical(v),
        crate::stream::parse_spec(toks, 0) == Ok::<(JsonS, int), DecodeErrorS>(
            (val_to_json_spec(v), toks.len() as int),
        ),
    ensures
        crate::stream::deserialize_val_spec(t, toks) == Ok::<ValS, DecodeErrorS>(v),
{
    lemma_tree_round_trip(t, v);
}

} // verus!
