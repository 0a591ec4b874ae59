//! The aggregation store behind the query API.
//!
//! One store per collector process, shared by the ingestion path and the
//! HTTP handlers; the surrounding program guards it with a lock held only
//! across these operations, never across I/O. The store never forgets an
//! entry on its own — only retention pruning of the underlying files does.

use vstd::prelude::*;

use crate::errors::TransferError;
use crate::text::{ends_with_str, find_str, matches_at, split_on, split_on_char};

verus! {

use vstd::multiset::Multiset;
use vstd::utf8::encode_utf8;

/// The collector's in-memory state: appended log lines, known source nodes,
/// and the running-container summaries received from them.
pub struct CentralState {
    pub logs: Vec<String>,
    pub servers: Vec<String>,
    pub running_containers: Vec<String>,
}

impl CentralState {
    /// An empty store.
    pub fn new() -> (r: CentralState)
        ensures
            r.logs@.len() == 0,
            r.servers@.len() == 0,
            r.running_containers@.len() == 0,
    {
        CentralState { logs: Vec::new(), servers: Vec::new(), running_containers: Vec::new() }
    }

    /// Appends a free-text log entry, rejecting an empty message.
    ///
    /// An empty message fails with `InvalidInput` and changes nothing; any
    /// other message is recorded once, marked as having arrived over HTTP,
    /// and nothing else moves.
    pub fn append_log(&mut self, message: &str) -> (r: Result<(), TransferError>)
        ensures
            r is Err <==> message@.len() == 0,
            r is Err ==> r->Err_0 == TransferError::InvalidInput && *final(self) == *old(self),
            r is Ok ==> final(self).logs.deep_view() == old(self).logs.deep_view().push(
                "HTTP: "@ + message@,
            ),
            r is Ok ==> final(self).servers == old(self).servers,
            r is Ok ==> final(self).running_containers == old(self).running_containers,
    {
        if message.is_empty() {
            return Err(TransferError::InvalidInput);
        }
        let ghost old_dv = self.logs.deep_view();
        let mut entry = String::from_str("HTTP: ");
        entry.append(message);
        self.logs.push(entry);
        proof {
            assert(self.logs.deep_view() =~~= old_dv.push("HTTP: "@ + message@));
        }
        Ok(())
    }

    /// Records a source node as known, exactly once per name.
    pub fn record_server(&mut self, name: &str) -> (r: bool)
        ensures
            r == (exists|i: int|
                0 <= i < old(self).servers@.len() && old(self).servers.deep_view()[i] == name@),
            r ==> *final(self) == *old(self),
            !r ==> final(self).servers.deep_view() == old(self).servers.deep_view().push(name@)
                && final(self).logs == old(self).logs && final(self).running_containers == old(
                self,
            ).running_containers,
    {
        let mut i: usize = 0;
        while i < self.servers.len()
            invariant
                *self == *old(self),
                i <= self.servers@.len(),
                self.servers@.len() == self.servers.deep_view().len(),
                forall|j: int| 0 <= j < i ==> self.servers.deep_view()[j] != name@,
            decreases self.servers@.len() - i,
        {
            if crate::text::str_eq(self.servers[i].as_str(), name) {
                proof {
                    assert(old(self).servers.deep_view()[i as int] == name@);
                }
                return true;
            }
            i = i + 1;
        }
        let ghost old_dv = self.servers.deep_view();
        self.servers.push(name.to_owned());
        proof {
            assert(self.servers.deep_view() =~~= old_dv.push(name@));
        }
        false
    }
}

/// Whether a path names a recognized log artifact: it ends in `.log`.
pub open spec fn is_log_path(p: Seq<char>) -> bool {
    p.len() >= 4 && p.subrange(p.len() - 4, p.len() as int) == ".log"@
}

/// `is_log_path`, as a filter predicate.
pub open spec fn log_path_pred() -> spec_fn(Seq<char>) -> bool {
    |p: Seq<char>| is_log_path(p)
}

/// The paths among `paths` that name log artifacts, in their given order.
pub fn select_log_files(paths: &Vec<String>) -> (r: Vec<String>)
    ensures
        r.deep_view() == paths.deep_view().filter(log_path_pred()),
{
    let ghost dv = paths.deep_view();
    let mut out: Vec<String> = Vec::new();
    let mut i: usize = 0;
    proof {
        assert(dv.take(0) =~= Seq::<Seq<char>>::empty());
        assert(out.deep_view() =~= dv.take(0).filter(log_path_pred()));
    }
    while i < paths.len()
        invariant
            dv == paths.deep_view(),
            dv.len() == paths@.len(),
            i <= paths@.len(),
            out.deep_view() == dv.take(i as int).filter(log_path_pred()),
        decreases paths@.len() - i,
    {
        let ghost pre = dv.take(i as int);
        let ghost post = dv.take(i as int + 1);
        proof {
            broadcast use Seq::lemma_filter_push;
            broadcast use vstd::string::group_string_axioms;

            assert(post =~= pre.push(dv[i as int]));
            assert(log_path_pred()(dv[i as int]) == is_log_path(dv[i as int]));
            reveal_strlit(".log");
            assert(".log"@.len() == 4);
        }
        if ends_with_str(paths[i].as_str(), ".log") {
            let ghost old_dv = out.deep_view();
            out.push(paths[i].clone());
            proof {
                assert(out.deep_view() =~~= old_dv.push(dv[i as int]));
            }
        }
        proof {
            broadcast use Seq::lemma_filter_push;

            let fpost = pre.push(dv[i as int]).filter(log_path_pred());
            assert(post.filter(log_path_pred()) == fpost);
            assert(out.deep_view() =~~= fpost);
        }
        i = i + 1;
    }
    proof {
        assert(dv.take(paths@.len() as int) =~= dv);
    }
    out
}

/// Whether one path sorts no later than another: byte-lexicographic order on
/// their UTF-8 forms, the order `str`'s own comparison uses.
pub open spec fn path_le(a: Seq<char>, b: Seq<char>) -> bool {
    crate::text::lex_le(encode_utf8(a), encode_utf8(b))
}

/// Whether a listing is in byte-lexicographic order.
pub open spec fn paths_sorted(ps: Seq<Seq<char>>) -> bool {
    forall|i: int, j: int| 0 <= i < j < ps.len() ==> path_le(#[trigger] ps[i], #[trigger] ps[j])
}

/// Sorts paths into byte-lexicographic order, keeping exactly the same
/// paths: the result is a sorted permutation of the input.
pub fn sort_paths(paths: Vec<String>) -> (r: Vec<String>)
    ensures
        paths_sorted(r.deep_view()),
        r.deep_view().to_multiset() == paths.deep_view().to_multiset(),
{
    broadcast use vstd::multiset::group_multiset_axioms;
    broadcast use vstd::multiset::lemma_multiset_empty_len;

    let ghost orig = paths.deep_view().to_multiset();
    let mut src = paths;
    let mut out: Vec<String> = Vec::new();
    proof {
        out.deep_view().to_multiset_ensures();
        assert(out.deep_view().to_multiset().len() == 0);
        assert(out.deep_view().to_multiset() =~= Multiset::<Seq<char>>::empty());
        assert(out.deep_view().to_multiset().add(src.deep_view().to_multiset()) =~= orig);
    }
    while src.len() > 0
        invariant
            out.deep_view().to_multiset().add(src.deep_view().to_multiset()) == orig,
            paths_sorted(out.deep_view()),
            forall|i: int, j: int|
                0 <= i < out.deep_view().len() && 0 <= j < src.deep_view().len() ==> path_le(
                    #[trigger] out.deep_view()[i],
                    #[trigger] src.deep_view()[j],
                ),
        decreases src@.len(),
    {
        let ghost sdv = src.deep_view();
        proof {
            crate::text::lemma_lex_total(encode_utf8(sdv[0]), encode_utf8(sdv[0]));
        }
        let mut m: usize = 0;
        let mut k: usize = 1;
        while k < src.len()
            invariant
                sdv == src.deep_view(),
                sdv.len() == src@.len(),
                src@.len() > 0,
                m < src@.len(),
                1 <= k <= src@.len(),
                forall|j: int| 0 <= j < k ==> path_le(sdv[m as int], #[trigger] sdv[j]),
            decreases src@.len() - k,
        {
            proof {
                crate::text::lemma_lex_total(
                    encode_utf8(sdv[k as int]),
                    encode_utf8(sdv[m as int]),
                );
            }
            if crate::text::str_le(src[k].as_str(), src[m].as_str()) {
                proof {
                    assert forall|j: int| 0 <= j < k + 1 implies path_le(
                        sdv[k as int],
                        #[trigger] sdv[j],
                    ) by {
                        if j < k {
                            crate::text::lemma_lex_trans(
                                encode_utf8(sdv[k as int]),
                                encode_utf8(sdv[m as int]),
                                encode_utf8(sdv[j]),
                            );
                        } else {
                            crate::text::lemma_lex_total(
                                encode_utf8(sdv[k as int]),
                                encode_utf8(sdv[k as int]),
                            );
                        }
                    }
                }
                m = k;
            } else {
                proof {
                    assert(path_le(sdv[m as int], sdv[k as int]));
                }
            }
            k = k + 1;
        }
        let ghost old_out = out.deep_view();
        let ghost picked = sdv[m as int];
        let ghost old_view = src@;
        let x = src.remove(m);
        out.push(x);
        proof {
            broadcast use vstd::multiset::group_multiset_axioms;

            sdv.to_multiset_ensures();
            old_out.to_multiset_ensures();
            assert forall|j: int| 0 <= j < src.deep_view().len() implies src.deep_view()[j]
                == sdv.remove(m as int)[j] by {
                if j < m {
                    assert(src@[j] == old_view[j]);
                } else {
                    assert(src@[j] == old_view[j + 1]);
                }
            }
            assert(src.deep_view() =~~= sdv.remove(m as int));
            assert(out.deep_view() =~~= old_out.push(picked));
            assert(sdv.remove(m as int).to_multiset() =~= sdv.to_multiset().remove(picked));
            assert(old_out.push(picked).to_multiset() =~= old_out.to_multiset().insert(picked));
            assert(src.deep_view().to_multiset() =~= sdv.to_multiset().remove(picked));
            assert(out.deep_view().to_multiset() =~= old_out.to_multiset().insert(picked));
            assert(sdv.contains(picked));
            assert(sdv.to_multiset().count(picked) >= 1);
            assert(out.deep_view().to_multiset().add(src.deep_view().to_multiset()) =~= orig);
            assert forall|i: int, j: int|
                0 <= i < j < out.deep_view().len() implies path_le(
                #[trigger] out.deep_view()[i],
                #[trigger] out.deep_view()[j],
            ) by {
                if j < out.deep_view().len() - 1 {
                    assert(old_out[i] == out.deep_view()[i] && old_out[j] == out.deep_view()[j]);
                }
            }
            assert forall|i: int, j: int|
                0 <= i < out.deep_view().len() && 0 <= j < src.deep_view().len() implies path_le(
                #[trigger] out.deep_view()[i],
                #[trigger] src.deep_view()[j],
            ) by {
                let orig_j = if j < m { j } else { j + 1 };
                assert(src.deep_view()[j] == sdv[orig_j]);
                if i < out.deep_view().len() - 1 {
                    assert(out.deep_view()[i] == old_out[i]);
                } else {
                    assert(out.deep_view()[i] == picked);
                    assert(path_le(picked, sdv[orig_j]));
                }
            }
        }
    }
    proof {
        src.deep_view().to_multiset_ensures();
        assert(src.deep_view().to_multiset().len() == 0);
        assert(src.deep_view().to_multiset() =~= Multiset::<Seq<char>>::empty());
        assert(out.deep_view().to_multiset() =~= orig);
    }
    out
}

/// Where an artifact path's name separator begins: the position of the first
/// `||`, or the path's length where there is none.
pub open spec fn host_cut(s: Seq<char>) -> int {
    if exists|j: int| matches_at(s, "||"@, j) {
        choose|j: int|
            matches_at(s, "||"@, j) && (forall|k: int| 0 <= k < j ==> !matches_at(s, "||"@, k))
    } else {
        s.len() as int
    }
}

/// The source node an artifact path names: the last path segment of what
/// stands before the first `||`, the artifact names embedding the host there.
pub fn server_name_from_path(path: &str) -> (r: String)
    ensures
        r@ == split_on(path@.subrange(0, host_cut(path@)), '/').last(),
{
    let n = path.unicode_len();
    let cut: usize = match find_str(path, "||") {
        Some(i) => i,
        None => n,
    };
    proof {
        if exists|j: int| matches_at(path@, "||"@, j) {
            let w = choose|j: int|
                matches_at(path@, "||"@, j) && (forall|k: int|
                    0 <= k < j ==> !matches_at(path@, "||"@, k));
            assert(matches_at(path@, "||"@, cut as int) && (forall|k: int|
                0 <= k < cut ==> !matches_at(path@, "||"@, k)));
            assert(w == cut as int);
        } else {
            assert(cut == n);
        }
        assert(host_cut(path@) == cut as int);
    }
    let pre = crate::text::substr_string(path, 0, cut);
    let segs = split_on_char(pre.as_str(), '/');
    proof {
        crate::text::lemma_split_on_len(pre@, '/');
    }
    let r = segs[segs.len() - 1].clone();
    r
}

} // verus!
