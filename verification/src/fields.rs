//! The searchable field paths of a document: every dotted key path of its
//! objects, arrays represented by their first element, listed sorted and
//! without duplicates.

use vstd::prelude::*;

use crate::json::{lemma_views_of_fields, lemma_views_of_list, view_of, views_of_fields,
    views_of_list, Json, JsonV};
use crate::plan::{has_string, lemma_seq_lt_total, lemma_seq_lt_trans_chain, seq_lt, str_lt};
use crate::pointer::string_views;
use crate::text::{push_all, str_chars, string_from_chars, vec_skip};

verus! {

/// The dotted field paths under `v`, whose own path is `prefix` (empty at
/// the root): one path per object member, in pre-order; an array shows its
/// first element's fields.
pub open spec fn field_paths(v: JsonV, prefix: Seq<char>) -> Seq<Seq<char>>
    decreases v, 0int,
{
    match v {
        JsonV::Obj(fields) => paths_of_fields(fields, prefix, 0),
        JsonV::Arr(items) => if items.len() > 0 {
            field_paths(items[0], prefix)
        } else {
            Seq::empty()
        },
        _ => Seq::empty(),
    }
}

/// The dotted paths of the members from position `k` on.
pub open spec fn paths_of_fields(
    fields: Seq<(Seq<char>, JsonV)>,
    prefix: Seq<char>,
    k: int,
) -> Seq<Seq<char>>
    decreases fields, fields.len() - k,
{
    if k < 0 || k >= fields.len() {
        Seq::empty()
    } else {
        let path = if prefix.len() == 0 {
            fields[k].0
        } else {
            prefix + seq!['.'] + fields[k].0
        };
        seq![path] + field_paths(fields[k].1, path) + paths_of_fields(fields, prefix, k + 1)
    }
}

/// Collects the dotted paths under `value` in pre-order.
#[verifier::loop_isolation(false)]
fn collect_field_paths(value: &Json, prefix: &Vec<char>, out: &mut Vec<String>)
    ensures
        string_views(final(out)@) == string_views(old(out)@) + field_paths(value@, prefix@),
    decreases *value,
{
    match value {
        Json::Obj(fields) => {
            proof {
                lemma_views_of_fields(fields@, 0);
            }
            let ghost fviews = views_of_fields(fields@, 0);
            let mut k: usize = 0;
            proof {
                assert(string_views(out@) + paths_of_fields(fviews, prefix@, 0) =~= string_views(
                    old(out)@,
                ) + field_paths(value@, prefix@));
            }
            while k < fields.len()
                invariant
                    k <= fields.len(),
                    string_views(out@) + paths_of_fields(fviews, prefix@, k as int)
                        =~= string_views(old(out)@) + field_paths(value@, prefix@),
                decreases fields.len() - k,
            {
                let mut path: Vec<char>;
                if prefix.len() == 0 {
                    path = str_chars(fields[k].0.as_str());
                    proof {
                        assert(path@ =~= fviews[k as int].0);
                    }
                } else {
                    path = vec_skip(prefix, 0);
                    path.push('.');
                    let key_chars = str_chars(fields[k].0.as_str());
                    push_all(&mut path, &key_chars);
                    proof {
                        assert(path@ =~= prefix@ + seq!['.'] + fviews[k as int].0);
                    }
                }
                let ghost pathv = path@;
                let ghost before = string_views(out@);
                out.push(string_from_chars(&path));
                proof {
                    assert(string_views(out@) =~= before.push(pathv));
                }
                let ghost mid = string_views(out@);
                collect_field_paths(&fields[k].1, &path, out);
                proof {
                    assert(view_of(fields@[k as int].1) == fviews[k as int].1);
                    assert(string_views(out@) + paths_of_fields(fviews, prefix@, k + 1 as int)
                        =~= string_views(old(out)@) + field_paths(value@, prefix@)) by {
                        assert(string_views(out@) =~= mid + field_paths(
                            fviews[k as int].1,
                            pathv,
                        ));
                        assert(paths_of_fields(fviews, prefix@, k as int) == seq![pathv]
                            + field_paths(fviews[k as int].1, pathv) + paths_of_fields(
                            fviews,
                            prefix@,
                            k + 1 as int,
                        ));
                    }
                }
                k = k + 1;
            }
            proof {
                assert(paths_of_fields(fviews, prefix@, fields@.len() as int) =~= Seq::<
                    Seq<char>,
                >::empty());
                assert(string_views(out@) =~= string_views(out@) + Seq::<Seq<char>>::empty());
            }
        },
        Json::Arr(items) => {
            proof {
                lemma_views_of_list(items@, 0);
            }
            if items.len() > 0 {
                proof {
                    assert(view_of(items@[0]) == views_of_list(items@, 0)[0]);
                }
                collect_field_paths(&items[0], prefix, out);
            } else {
                proof {
                    assert(string_views(out@) =~= string_views(out@) + Seq::<Seq<char>>::empty());
                }
            }
        },
        _ => {
            proof {
                assert(string_views(out@) =~= string_views(out@) + Seq::<Seq<char>>::empty());
            }
        },
    }
}

/// The order is irreflexive in one direction.
proof fn lemma_seq_lt_asym(a: Seq<char>, b: Seq<char>)
    requires
        seq_lt(a, b),
    ensures
        !seq_lt(b, a),
        a != b,
    decreases a.len(),
{
    if a.len() > 0 && b.len() > 0 && !((a[0] as u32) < (b[0] as u32)) && !((b[0] as u32) < (
    a[0] as u32)) {
        lemma_seq_lt_asym(a.skip(1), b.skip(1));
        if a == b {
            assert(a.skip(1) == b.skip(1));
        }
    } else {
        if a == b && a.len() > 0 {
            assert(a[0] == b[0]);
        }
    }
}

/// List the dotted field paths of a document, sorted and without
/// duplicates: exactly the paths the pre-order walk finds.
#[verifier::loop_isolation(false)]
#[verifier::rlimit(60)]
pub fn fields_list(value: &Json) -> (r: Vec<String>)
    ensures
        forall|p: int, q: int| 0 <= p < q < r@.len() ==> seq_lt(r@[p]@, r@[q]@),
        forall|p: int|
            0 <= p < r@.len() ==> field_paths(value@, Seq::empty()).contains(#[trigger] r@[p]@),
        forall|k: int|
            0 <= k < field_paths(value@, Seq::empty()).len() ==> has_string(
                r@,
                #[trigger] field_paths(value@, Seq::empty())[k],
            ),
{
    let mut all: Vec<String> = Vec::new();
    let prefix: Vec<char> = Vec::new();
    proof {
        assert(string_views(all@) =~= Seq::<Seq<char>>::empty());
    }
    collect_field_paths(value, &prefix, &mut all);
    let ghost paths = field_paths(value@, Seq::empty());
    proof {
        assert(string_views(all@) =~= paths);
    }
    let mut out: Vec<String> = Vec::new();
    let mut i: usize = 0;
    while i < all.len()
        invariant
            i <= all@.len(),
            string_views(all@) == paths,
            paths.len() == all@.len(),
            forall|p: int, q: int| 0 <= p < q < out@.len() ==> seq_lt(out@[p]@, out@[q]@),
            forall|p: int| 0 <= p < out@.len() ==> paths.contains(#[trigger] out@[p]@),
            forall|k: int| 0 <= k < i ==> has_string(out@, #[trigger] paths[k]),
        decreases all.len() - i,
    {
        proof {
            assert(paths[i as int] == all@[i as int]@);
        }
        let s = all[i].clone();
        let mut j: usize = 0;
        while j < out.len() && str_lt(&out[j], &s)
            invariant
                j <= out@.len(),
                s@ == all@[i as int]@,
                forall|p: int| 0 <= p < j ==> seq_lt(#[trigger] out@[p]@, s@),
            decreases out.len() - j,
        {
            j = j + 1;
        }
        let duplicate = j < out.len() && out[j] == s;
        if duplicate {
            proof {
                assert(out@[j as int]@ == s@);
                assert(has_string(out@, paths[i as int]));
            }
        } else {
            proof {
                if j < out@.len() {
                    assert(!seq_lt(out@[j as int]@, s@));
                    assert(out@[j as int]@ != s@);
                    lemma_seq_lt_total(out@[j as int]@, s@);
                    assert(seq_lt(s@, out@[j as int]@));
                }
            }
            let ghost outv = out@;
            out.insert(j, s);
            proof {
                assert(forall|p: int| 0 <= p < j ==> out@[p] == outv[p]);
                assert(out@[j as int]@ == all@[i as int]@);
                assert(forall|p: int| j < p < out@.len() ==> out@[p] == outv[p - 1]);
                assert forall|p: int, q: int|
                    0 <= p < q < out@.len() implies seq_lt(out@[p]@, out@[q]@) by {
                    if p < j && q == j {
                    } else if p == j && q > j {
                        assert(out@[q]@ == outv[q - 1]@);
                        if (j as int) < q - 1 {
                            assert(seq_lt(outv[j as int]@, outv[q - 1]@));
                            lemma_seq_lt_trans_chain(s@, outv[j as int]@, outv[q - 1]@);
                            if s@ == outv[q - 1]@ {
                                lemma_seq_lt_asym(s@, outv[j as int]@);
                                lemma_seq_lt_asym(outv[j as int]@, outv[q - 1]@);
                            }
                        }
                    }
                }
                assert forall|p: int|
                    0 <= p < out@.len() implies paths.contains(#[trigger] out@[p]@) by {
                    if p < j {
                        assert(out@[p]@ == outv[p]@);
                    } else if p == j {
                        assert(out@[p]@ == paths[i as int]);
                    } else {
                        assert(out@[p]@ == outv[p - 1]@);
                    }
                }
                assert forall|k: int|
                    0 <= k < i + 1 implies has_string(out@, #[trigger] paths[k]) by {
                    if k < i {
                        let w = choose|w: int| 0 <= w < outv.len() && #[trigger] outv[w]@ == paths[k];
                        if w < j {
                            assert(out@[w]@ == paths[k]);
                        } else {
                            assert(out@[w + 1]@ == paths[k]);
                        }
                    } else {
                        assert(out@[j as int]@ == paths[k]);
                    }
                }
            }
        }
        proof {
            assert forall|k: int| 0 <= k < i + 1 implies has_string(out@, #[trigger] paths[k]) by {
            }
        }
        i = i + 1;
    }
    out
}

} // verus!
