use vstd::prelude::*;

use crate::json::{arr_dv, Json, JsonS};
use crate::model::{vec_dv_val, Val, ValS};
use crate::ser::{lemma_seq_enc, seq_enc, val_to_json_spec, val_to_json};
use crate::views::{lemma_dv_json_arr, lemma_dv_json_obj, lemma_dv_val_list};

verus! {

/// The wire form of a call's results: no results give an empty object,
/// one result is wrapped under "result" — except a `result`-typed value,
/// whose own "result"/"error" object is returned unwrapped — and two or
/// more results are listed under "results" in declaration order.
pub open spec fn results_to_json_spec(vs: Seq<ValS>) -> JsonS {
    if vs.len() == 0 {
        JsonS::Obj(Seq::empty())
    } else if vs.len() == 1 {
        if vs[0] is Result {
            val_to_json_spec(vs[0])
        } else {
            JsonS::Obj(seq![("result"@, val_to_json_spec(vs[0]))])
        }
    } else {
        JsonS::Obj(seq![("results"@, JsonS::Arr(seq_enc(vs)))])
    }
}

/// Re-exposes a call's result values as one external tree.
pub fn results_to_json(results: &Vec<Val>) -> (r: Json)
    ensures
        r.deep_view() == results_to_json_spec(vec_dv_val(*results)),
{
    proof {
        lemma_dv_val_list(*results);
        reveal_strlit("result");
        reveal_strlit("results");
    }
    if results.len() == 0 {
        let entries: Vec<(String, Json)> = Vec::new();
        proof {
            lemma_dv_json_obj(entries);
            assert(crate::json::obj_dv(entries) =~= Seq::<(Seq<char>, JsonS)>::empty());
        }
        Json::Obj(entries)
    } else if results.len() == 1 {
        let j = val_to_json(&results[0]);
        let flatten = match &results[0] {
            Val::Result(_) => true,
            _ => false,
        };
        if flatten {
            j
        } else {
            let entries = vec![("result".to_owned(), j)];
            proof {
                lemma_dv_json_obj(entries);
                assert(crate::json::obj_dv(entries) =~= seq![
                    ("result"@, val_to_json_spec(vec_dv_val(*results)[0])),
                ]);
            }
            Json::Obj(entries)
        }
    } else {
        let mut out: Vec<Json> = Vec::new();
        let mut i: usize = 0;
        while i < results.len()
            invariant
                i <= results@.len(),
                out@.len() == i,
                forall|q: int|
                    0 <= q < i ==> (#[trigger] out@[q]).deep_view() == val_to_json_spec(
                        results@[q].deep_view(),
                    ),
            decreases results@.len() - i,
        {
            let e = val_to_json(&results[i]);
            out.push(e);
            i += 1;
        }
        proof {
            lemma_dv_json_arr(out);
            lemma_seq_enc(vec_dv_val(*results));
            assert(arr_dv(out) =~= seq_enc(vec_dv_val(*results)));
        }
        let arr = Json::Arr(out);
        let entries = vec![("results".to_owned(), arr)];
        proof {
            lemma_dv_json_obj(entries);
            assert(crate::json::obj_dv(entries) =~= seq![
                ("results"@, JsonS::Arr(seq_enc(vec_dv_val(*results)))),
            ]);
        }
        Json::Obj(entries)
    }
}

} // verus!
