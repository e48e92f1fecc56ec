use vstd::prelude::*;

use crate::decode::{json_to_val, json_to_val_spec, res_matches};
use crate::error::{DecodeError, DecodeErrorS};
use crate::json::{arr_dv, obj_dv, Json, JsonNum, JsonS};
use crate::model::{Type, Val};
use crate::views::{lemma_dv_json_arr, lemma_dv_json_obj};

verus! {

/// The streaming entry point: decoding from a token source instead of a
/// materialized tree. Tokens carry primitives (floats as bit patterns),
/// raw byte runs, and sequence/map delimiters; map keys are string tokens.
/// The token form is assembled into the external tree and decoded with
/// exactly the tree decoder's semantics — the one strict convention of
/// this crate, applied uniformly to both entry points.
#[derive(Debug, PartialEq, Eq)]
pub enum Token {
    Null,
    Bool(bool),
    UInt(u64),
    SInt(i64),
    F32(u32),
    F64(u64),
    Str(String),
    Bytes(Vec<u8>),
    ArrStart,
    ArrEnd,
    ObjStart,
    ObjEnd,
}

#[verifier::ext_equal]
pub enum TokenS {
    Null,
    Bool(bool),
    UInt(u64),
    SInt(i64),
    F32(u32),
    F64(u64),
    Str(Seq<char>),
    Bytes(Seq<u8>),
    ArrStart,
    ArrEnd,
    ObjStart,
    ObjEnd,
}

impl DeepView for Token {
    type V = TokenS;

    open spec fn deep_view(&self) -> TokenS {
        match self {
            Token::Null => TokenS::Null,
            Token::Bool(b) => TokenS::Bool(*b),
            Token::UInt(v) => TokenS::UInt(*v),
            Token::SInt(v) => TokenS::SInt(*v),
            Token::F32(v) => TokenS::F32(*v),
            Token::F64(v) => TokenS::F64(*v),
            Token::Str(s) => TokenS::Str(s@),
            Token::Bytes(b) => TokenS::Bytes(b@),
            Token::ArrStart => TokenS::ArrStart,
            Token::ArrEnd => TokenS::ArrEnd,
            Token::ObjStart => TokenS::ObjStart,
            Token::ObjEnd => TokenS::ObjEnd,
        }
    }
}

pub open spec fn tokens_dv(toks: Seq<Token>) -> Seq<TokenS> {
    Seq::new(
        toks.len(),
        |i: int|
            if 0 <= i < toks.len() {
                toks[i].deep_view()
            } else {
                TokenS::Null
            },
    )
}

pub proof fn lemma_tokens_dv(toks: Seq<Token>)
    ensures
        tokens_dv(toks).len() == toks.len(),
        forall|i: int| 0 <= i < toks.len() ==> tokens_dv(toks)[i] == toks[i].deep_view(),
{
    let s = tokens_dv(toks);
    assert forall|i: int| 0 <= i < toks.len() implies s[i] == toks[i].deep_view() by {}
}

/// The error reported for a token run that is not one well-formed value.
pub open spec fn frame_err() -> DecodeErrorS {
    DecodeErrorS::TypeMismatch("token stream"@)
}

/// A raw byte run stands for an array of numbers, so a byte list decodes
/// from it directly.
pub open spec fn bytes_json(bs: Seq<u8>) -> Seq<JsonS> {
    Seq::new(
        bs.len(),
        |i: int|
            if 0 <= i < bs.len() {
                JsonS::Num(JsonNum::UInt(bs[i] as u64))
            } else {
                JsonS::Null
            },
    )
}

/// One external value assembled from the tokens at `p` on: the tree and
/// the position after it.
pub open spec fn parse_spec(toks: Seq<TokenS>, p: int) -> Result<(JsonS, int), DecodeErrorS>
    decreases toks.len() - p, 2int,
{
    if p < 0 || p >= toks.len() {
        Err(frame_err())
    } else {
        match toks[p] {
            TokenS::Null => Ok((JsonS::Null, p + 1)),
            TokenS::Bool(b) => Ok((JsonS::Bool(b), p + 1)),
            TokenS::UInt(v) => Ok((JsonS::Num(JsonNum::UInt(v)), p + 1)),
            TokenS::SInt(v) => Ok((JsonS::Num(JsonNum::Int(v)), p + 1)),
            TokenS::F32(v) => Ok((JsonS::Num(JsonNum::F32(v)), p + 1)),
            TokenS::F64(v) => Ok((JsonS::Num(JsonNum::F64(v)), p + 1)),
            TokenS::Str(s) => Ok((JsonS::Str(s), p + 1)),
            TokenS::Bytes(bs) => Ok((JsonS::Arr(bytes_json(bs)), p + 1)),
            TokenS::ArrStart => match parse_arr_spec(toks, p + 1) {
                Ok((els, p2)) => Ok((JsonS::Arr(els), p2)),
                Err(e) => Err(e),
            },
            TokenS::ObjStart => match parse_obj_spec(toks, p + 1) {
                Ok((entries, p2)) => Ok((JsonS::Obj(entries), p2)),
                Err(e) => Err(e),
            },
            TokenS::ArrEnd => Err(frame_err()),
            TokenS::ObjEnd => Err(frame_err()),
        }
    }
}

pub open spec fn parse_arr_spec(toks: Seq<TokenS>, p: int) -> Result<
    (Seq<JsonS>, int),
    DecodeErrorS,
>
    decreases toks.len() - p, 3int,
{
    if p < 0 || p >= toks.len() {
        Err(frame_err())
    } else if toks[p] == TokenS::ArrEnd {
        Ok((Seq::empty(), p + 1))
    } else {
        match parse_spec(toks, p) {
            Ok((j, p2)) => if p < p2 <= toks.len() {
                match parse_arr_spec(toks, p2) {
                    Ok((rest, p3)) => Ok((seq![j] + rest, p3)),
                    Err(e) => Err(e),
                }
            } else {
                Err(frame_err())
            },
            Err(e) => Err(e),
        }
    }
}

pub open spec fn parse_obj_spec(toks: Seq<TokenS>, p: int) -> Result<
    (Seq<(Seq<char>, JsonS)>, int),
    DecodeErrorS,
>
    decreases toks.len() - p, 3int,
{
    if p < 0 || p >= toks.len() {
        Err(frame_err())
    } else if toks[p] == TokenS::ObjEnd {
        Ok((Seq::empty(), p + 1))
    } else {
        match toks[p] {
            TokenS::Str(key) => match parse_spec(toks, p + 1) {
                Ok((j, p2)) => if p + 1 < p2 <= toks.len() {
                    match parse_obj_spec(toks, p2) {
                        Ok((rest, p3)) => Ok((seq![(key, j)] + rest, p3)),
                        Err(e) => Err(e),
                    }
                } else {
                    Err(frame_err())
                },
                Err(e) => Err(e),
            },
            _ => Err(frame_err()),
        }
    }
}

/// What streaming decoding means: the tokens must form exactly one
/// external value, which then decodes under the tree semantics.
pub open spec fn deserialize_val_spec(t: crate::model::TypeS, toks: Seq<TokenS>) -> Result<
    crate::model::ValS,
    DecodeErrorS,
> {
    match parse_spec(toks, 0) {
        Ok((j, p)) => if p == toks.len() {
            json_to_val_spec(t, j)
        } else {
            Err(frame_err())
        },
        Err(e) => Err(e),
    }
}

fn frame_err_x() -> (r: DecodeError)
    ensures
        r.deep_view() == frame_err(),
{
    proof {
        reveal_strlit("token stream");
    }
    DecodeError::TypeMismatch("token stream".to_owned())
}

/// Assembles one external value from the tokens at `p` on.
fn parse_x(toks: &Vec<Token>, p: usize) -> (r: Result<(Json, usize), DecodeError>)
    ensures
        match r {
            Ok((j, p2)) => parse_spec(tokens_dv(toks@), p as int) == Ok::<
                (JsonS, int),
                DecodeErrorS,
            >((j.deep_view(), p2 as int)) && p < p2 <= toks@.len(),
            Err(e) => parse_spec(tokens_dv(toks@), p as int) == Err::<
                (JsonS, int),
                DecodeErrorS,
            >(e.deep_view()),
        },
    decreases toks@.len() - p, 2int,
{
    proof {
        lemma_tokens_dv(toks@);
    }
    if p >= toks.len() {
        return Err(frame_err_x());
    }
    match &toks[p] {
        Token::Null => Ok((Json::Null, p + 1)),
        Token::Bool(b) => Ok((Json::Bool(*b), p + 1)),
        Token::UInt(v) => Ok((Json::Num(JsonNum::UInt(*v)), p + 1)),
        Token::SInt(v) => Ok((Json::Num(JsonNum::Int(*v)), p + 1)),
        Token::F32(v) => Ok((Json::Num(JsonNum::F32(*v)), p + 1)),
        Token::F64(v) => Ok((Json::Num(JsonNum::F64(*v)), p + 1)),
        Token::Str(s) => Ok((Json::Str(s.clone()), p + 1)),
        Token::Bytes(bs) => {
            let mut out: Vec<Json> = Vec::new();
            let mut i: usize = 0;
            while i < bs.len()
                invariant
                    0 <= i <= bs@.len(),
                    out@.len() == i,
                    forall|q: int|
                        0 <= q < i ==> (#[trigger] out@[q]).deep_view() == JsonS::Num(
                            JsonNum::UInt(bs@[q] as u64),
                        ),
                decreases bs@.len() - i,
            {
                out.push(Json::Num(JsonNum::UInt(bs[i] as u64)));
                i += 1;
            }
            proof {
                lemma_dv_json_arr(out);
                assert(arr_dv(out) =~= bytes_json(bs@));
            }
            Ok((Json::Arr(out), p + 1))
        },
        Token::ArrStart => match parse_arr_x(toks, p + 1) {
            Ok((els, p2)) => {
                proof {
                    lemma_dv_json_arr(els);
                }
                Ok((Json::Arr(els), p2))
            },
            Err(e) => Err(e),
        },
        Token::ObjStart => match parse_obj_x(toks, p + 1) {
            Ok((entries, p2)) => {
                proof {
                    lemma_dv_json_obj(entries);
                }
                Ok((Json::Obj(entries), p2))
            },
            Err(e) => Err(e),
        },
        Token::ArrEnd => Err(frame_err_x()),
        Token::ObjEnd => Err(frame_err_x()),
    }
}

fn parse_arr_x(toks: &Vec<Token>, p: usize) -> (r: Result<(Vec<Json>, usize), DecodeError>)
    ensures
        match r {
            Ok((els, p2)) => parse_arr_spec(tokens_dv(toks@), p as int) == Ok::<
                (Seq<JsonS>, int),
                DecodeErrorS,
            >((arr_dv(els), p2 as int)) && p < p2 <= toks@.len(),
            Err(e) => parse_arr_spec(tokens_dv(toks@), p as int) == Err::<
                (Seq<JsonS>, int),
                DecodeErrorS,
            >(e.deep_view()),
        },
    decreases toks@.len() - p, 3int,
{
    proof {
        lemma_tokens_dv(toks@);
    }
    if p >= toks.len() {
        return Err(frame_err_x());
    }
    let at_end = match &toks[p] {
        Token::ArrEnd => true,
        _ => false,
    };
    if at_end {
        let out: Vec<Json> = Vec::new();
        proof {
            lemma_dv_json_arr(out);
            assert(arr_dv(out) =~= Seq::<JsonS>::empty());
        }
        return Ok((out, p + 1));
    }
    match parse_x(toks, p) {
        Ok((j, p2)) => match parse_arr_x(toks, p2) {
            Ok((mut rest, p3)) => {
                rest.insert(0, j);
                proof {
                    lemma_dv_json_arr(rest);
                    assert(parse_arr_spec(tokens_dv(toks@), p as int) matches Ok((s, _))
                        ==> arr_dv(rest) =~= s);
                }
                Ok((rest, p3))
            },
            Err(e) => Err(e),
        },
        Err(e) => Err(e),
    }
}

fn parse_obj_x(toks: &Vec<Token>, p: usize) -> (r: Result<
    (Vec<(String, Json)>, usize),
    DecodeError,
>)
    ensures
        match r {
            Ok((entries, p2)) => parse_obj_spec(tokens_dv(toks@), p as int) == Ok::<
                (Seq<(Seq<char>, JsonS)>, int),
                DecodeErrorS,
            >((obj_dv(entries), p2 as int)) && p < p2 <= toks@.len(),
            Err(e) => parse_obj_spec(tokens_dv(toks@), p as int) == Err::<
                (Seq<(Seq<char>, JsonS)>, int),
                DecodeErrorS,
            >(e.deep_view()),
        },
    decreases toks@.len() - p, 3int,
{
    proof {
        lemma_tokens_dv(toks@);
    }
    if p >= toks.len() {
        return Err(frame_err_x());
    }
    let at_end = match &toks[p] {
        Token::ObjEnd => true,
        _ => false,
    };
    if at_end {
        let out: Vec<(String, Json)> = Vec::new();
        proof {
            lemma_dv_json_obj(out);
            assert(obj_dv(out) =~= Seq::<(Seq<char>, JsonS)>::empty());
        }
        return Ok((out, p + 1));
    }
    match &toks[p] {
        Token::Str(key) => {
            let key = key.clone();
            match parse_x(toks, p + 1) {
                Ok((j, p2)) => match parse_obj_x(toks, p2) {
                    Ok((mut rest, p3)) => {
                        rest.insert(0, (key, j));
                        proof {
                            lemma_dv_json_obj(rest);
                            assert(parse_obj_spec(tokens_dv(toks@), p as int) matches Ok((s, _))
                                ==> obj_dv(rest) =~= s);
                        }
                        Ok((rest, p3))
                    },
                    Err(e) => Err(e),
                },
                Err(e) => Err(e),
            }
        },
        _ => Err(frame_err_x()),
    }
}

/// Decodes one value from a token run, under the tree decoder's exact
/// semantics: the run must form one well-formed external value and
/// nothing more.
pub fn deserialize_val(t: &Type, toks: &Vec<Token>) -> (r: Result<Val, DecodeError>)
    ensures
        res_matches(r, deserialize_val_spec(t.deep_view(), tokens_dv(toks@))),
{
    proof {
        lemma_tokens_dv(toks@);
    }
    match parse_x(toks, 0) {
        Ok((j, p)) => {
            if p == toks.len() {
                json_to_val(t, &j)
            } else {
                Err(frame_err_x())
            }
        },
        Err(e) => Err(e),
    }
}

/// Exactly one item: the first is present and the second absent; too few
/// or too many each yield the caller's chosen error.
pub fn expect_exactly_one<T>(
    first: Option<T>,
    second: Option<T>,
    too_few: DecodeError,
    too_many: DecodeError,
) -> (r: Result<T, DecodeError>)
    ensures
        match (first, second) {
            (Some(_), None) => r matches Ok(v) && Some(v) == first,
            (None, _) => r matches Err(e) && e == too_few,
            (Some(_), Some(_)) => r matches Err(e) && e == too_many,
        },
{
    match (first, second) {
        (Some(v), None) => Ok(v),
        (None, _) => Err(too_few),
        (Some(_), Some(_)) => Err(too_many),
    }
}

} // verus!
