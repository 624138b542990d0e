//! Configuration of the forwarding sink: the pure part of turning the
//! caller's arguments into a sender setup. The sending itself is outside
//! work.

use vstd::prelude::*;
use crate::text;

verus! {

/// One custom query parameter.
#[derive(Debug, PartialEq, Eq)]
pub struct QueryParam {
    pub key: Vec<u8>,
    pub value: Vec<u8>,
}

pub ghost struct QueryParamModel {
    pub key: Seq<u8>,
    pub value: Seq<u8>,
}

impl View for QueryParam {
    type V = QueryParamModel;

    open spec fn view(&self) -> QueryParamModel {
        QueryParamModel { key: self.key@, value: self.value@ }
    }
}

/// What one `key=value` argument denotes: split at the first equals
/// sign; without one, the whole text is the key and the value is empty.
pub open spec fn query_param_spec(s: Seq<u8>) -> QueryParamModel {
    let k = text::scan_to(s, 0, 61);
    if k < s.len() {
        QueryParamModel { key: s.subrange(0, k), value: s.subrange(k + 1, s.len() as int) }
    } else {
        QueryParamModel { key: s, value: seq![] }
    }
}

/// The parameters a list of `key=value` arguments denotes, in order.
pub open spec fn query_params_spec(args: Seq<Seq<u8>>) -> Seq<QueryParamModel>
    decreases args.len(),
{
    if args.len() == 0 {
        seq![]
    } else {
        seq![query_param_spec(args[0])] + query_params_spec(args.skip(1))
    }
}

/// Split the caller's `key=value` arguments into query parameters.
pub fn parse_query_params(args: &Vec<Vec<u8>>) -> (r: Vec<QueryParam>)
    ensures
        r@.map_values(|p: QueryParam| p@) == query_params_spec(
            args@.map_values(|a: Vec<u8>| a@),
        ),
{
    let ghost all = args@.map_values(|a: Vec<u8>| a@);
    let mut out: Vec<QueryParam> = Vec::new();
    let mut i: usize = 0;
    proof {
        assert(all.skip(0) =~= all);
        assert(out@.map_values(|p: QueryParam| p@) =~= Seq::<QueryParamModel>::empty());
    }
    while i < args.len()
        invariant
            i <= args@.len(),
            all == args@.map_values(|a: Vec<u8>| a@),
            query_params_spec(all) == out@.map_values(|p: QueryParam| p@) + query_params_spec(
                all.skip(i as int),
            ),
        decreases args@.len() - i,
    {
        proof {
            assert(all.skip(i as int)[0] == all[i as int]);
            assert(all.skip(i as int).skip(1) =~= all.skip(i + 1));
        }
        let a = &args[i];
        let k = text::find_byte(a.as_slice(), 0, 61);
        let param = if k < a.len() {
            QueryParam {
                key: text::copy_range(a.as_slice(), 0, k),
                value: text::copy_range(a.as_slice(), k + 1, a.len()),
            }
        } else {
            QueryParam { key: text::to_vec(a.as_slice()), value: Vec::new() }
        };
        proof {
            assert(param@ == query_param_spec(all[i as int]));
        }
        let ghost old_models = out@.map_values(|p: QueryParam| p@);
        let ghost pm = param@;
        out.push(param);
        proof {
            assert(out@.map_values(|p: QueryParam| p@) =~= old_models + seq![pm]);
            assert(old_models + (seq![pm] + query_params_spec(all.skip(i + 1))) =~= (old_models
                + seq![pm]) + query_params_spec(all.skip(i + 1)));
        }
        i += 1;
    }
    proof {
        assert(all.skip(i as int) =~= Seq::<Seq<u8>>::empty());
        assert(out@.map_values(|p: QueryParam| p@) + Seq::<QueryParamModel>::empty()
            =~= out@.map_values(|p: QueryParam| p@));
    }
    out
}

} // verus!
