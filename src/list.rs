//! Keyset pagination over identifiers: pages come in ascending order.
use vstd::prelude::*;

verus! {

pub open spec fn ascending(s: Seq<u128>) -> bool {
    forall|i: int, j: int| 0 <= i < j < s.len() ==> s[i] < s[j]
}

/// `x` lies above the cursor, if there is one.
pub open spec fn above(x: u128, gt: Option<u128>) -> bool {
    match gt {
        Some(g) => g < x,
        None => true,
    }
}

/// `r` is the page of at most `limit` ids of `ids` above the cursor: the
/// smallest ones, in ascending order.
pub open spec fn page_after(ids: Seq<u128>, gt: Option<u128>, limit: nat, r: Seq<u128>) -> bool {
    &&& r.len() <= limit
    &&& ascending(r)
    &&& forall|i: int| 0 <= i < r.len() ==> ids.contains(#[trigger] r[i]) && above(r[i], gt)
    &&& forall|x: u128|
        #[trigger] ids.contains(x) && above(x, gt) && (r.len() < limit || (r.len() > 0 && x
            <= r.last())) ==> r.contains(x)
}

/// `r` is the page of at most `limit` ids of `ids` below `lt`: the largest
/// ones, in ascending order.
pub open spec fn page_before(ids: Seq<u128>, lt: u128, limit: nat, r: Seq<u128>) -> bool {
    &&& r.len() <= limit
    &&& ascending(r)
    &&& forall|i: int| 0 <= i < r.len() ==> ids.contains(#[trigger] r[i]) && r[i] < lt
    &&& forall|x: u128|
        #[trigger] ids.contains(x) && x < lt && (r.len() < limit || (r.len() > 0 && r[0] <= x))
            ==> r.contains(x)
}

/// The smallest id of `ids` above `cur`, if any.
fn next_above(ids: &Vec<u128>, cur: Option<u128>) -> (r: Option<u128>)
    ensures
        match r {
            Some(b) => ids@.contains(b) && above(b, cur) && forall|x: u128|
                #[trigger] ids@.contains(x) && above(x, cur) ==> b <= x,
            None => forall|x: u128| #[trigger] ids@.contains(x) ==> !above(x, cur),
        },
{
    let mut best: Option<u128> = None;
    let mut j: usize = 0;
    while j < ids.len()
        invariant
            j <= ids@.len(),
            match best {
                Some(b) => ids@.contains(b) && above(b, cur) && forall|k: int|
                    0 <= k < j && above(#[trigger] ids@[k], cur) ==> b <= ids@[k],
                None => forall|k: int| 0 <= k < j ==> !above(#[trigger] ids@[k], cur),
            },
        decreases ids@.len() - j,
    {
        let x = ids[j];
        let is_above = match cur {
            Some(c) => c < x,
            None => true,
        };
        if is_above {
            match best {
                Some(b) => {
                    if x < b {
                        best = Some(x);
                    }
                },
                None => {
                    best = Some(x);
                },
            }
        }
        proof {
            if best is Some {
                assert(ids@.contains(best->0));
            }
        }
        j = j + 1;
    }
    best
}

/// The page of at most `limit` ids above the cursor, in ascending order.
pub fn list_ids_gt(ids: &Vec<u128>, gt: Option<u128>, limit: usize) -> (r: Vec<u128>)
    ensures
        page_after(ids@, gt, limit as nat, r@),
{
    let mut out: Vec<u128> = Vec::new();
    let mut cur = gt;
    while out.len() < limit
        invariant
            out@.len() <= limit,
            ascending(out@),
            forall|i: int| 0 <= i < out@.len() ==> ids@.contains(#[trigger] out@[i]) && above(out@[i], gt),
            out@.len() == 0 ==> cur == gt,
            out@.len() > 0 ==> cur == Some(out@.last()),
            forall|x: u128|
                #[trigger] ids@.contains(x) && above(x, gt) && !above(x, cur) ==> out@.contains(x),
        decreases limit - out@.len(),
    {
        match next_above(ids, cur) {
            None => {
                return out;
            },
            Some(b) => {
                let ghost before = out@;
                out.push(b);
                proof {
                    assert forall|x: u128|
                        #[trigger] ids@.contains(x) && above(x, gt) && !above(x, Some(b)) implies out@.contains(x) by {
                        if above(x, cur) {
                            assert(b <= x);
                            assert(x == b);
                            assert(out@[out@.len() - 1] == b);
                        } else {
                            let i = choose|i: int| 0 <= i < before.len() && before[i] == x;
                            assert(out@[i] == x);
                        }
                    }
                    if before.len() > 0 {
                        assert(above(b, Some(before.last())));
                    }
                    assert forall|i: int, j: int| 0 <= i < j < out@.len() implies out@[i] < out@[j] by {
                        if j == out@.len() - 1 && i < j {
                            if before.len() > 0 {
                                assert(before[i] <= before.last());
                            }
                        }
                    }
                }
                cur = Some(b);
            },
        }
    }
    proof {
        assert forall|x: u128|
            #[trigger] ids@.contains(x) && above(x, gt) && (out@.len() < limit || (out@.len() > 0
                && x <= out@.last())) implies out@.contains(x) by {
            assert(!above(x, cur));
        }
    }
    out
}

/// Two consecutive pages, the second taken after the last id of the first,
/// join into one ascending list without duplicates that holds every id
/// between the first cursor and its own last id.
pub proof fn lemma_pages_concat(
    ids: Seq<u128>,
    gt: Option<u128>,
    n: nat,
    m: nat,
    first: Seq<u128>,
    second: Seq<u128>,
)
    requires
        page_after(ids, gt, n, first),
        first.len() > 0,
        page_after(ids, Some(first.last()), m, second),
    ensures
        ascending(first + second),
        forall|i: int| 0 <= i < (first + second).len() ==> above(#[trigger] (first + second)[i], gt),
        forall|x: u128|
            #[trigger] ids.contains(x) && above(x, gt) && (second.len() < m || x <= (first
                + second).last()) ==> (first + second).contains(x),
{
    let all = first + second;
    assert forall|i: int, j: int| 0 <= i < j < all.len() implies all[i] < all[j] by {
        if j >= first.len() && i < first.len() {
            assert(first[i] <= first.last());
            assert(above(second[j - first.len()], Some(first.last())));
        } else if i >= first.len() {
            assert(all[i] == second[i - first.len()]);
            assert(all[j] == second[j - first.len()]);
        }
    }
    assert forall|i: int| 0 <= i < all.len() implies above(#[trigger] all[i], gt) by {
        if i >= first.len() {
            assert(all[i] == second[i - first.len()]);
            assert(above(second[i - first.len()], Some(first.last())));
            assert(above(first.last(), gt));
        }
    }
    assert forall|x: u128|
        #[trigger] ids.contains(x) && above(x, gt) && (second.len() < m || x <= all.last())
            implies all.contains(x) by {
        if x <= first.last() {
            assert(first.contains(x));
            let i = choose|i: int| 0 <= i < first.len() && first[i] == x;
            assert(all[i] == x);
        } else {
            if second.len() > 0 && second.len() >= m {
                assert(all.last() == second.last());
            }
            assert(second.contains(x));
            let i = choose|i: int| 0 <= i < second.len() && second[i] == x;
            assert(all[first.len() + i] == x);
        }
    }
}

/// The largest id of `ids` below `cur`, if any.
fn next_below(ids: &Vec<u128>, cur: u128) -> (r: Option<u128>)
    ensures
        match r {
            Some(b) => ids@.contains(b) && b < cur && forall|x: u128|
                #[trigger] ids@.contains(x) && x < cur ==> x <= b,
            None => forall|x: u128| #[trigger] ids@.contains(x) ==> x >= cur,
        },
{
    let mut best: Option<u128> = None;
    let mut j: usize = 0;
    while j < ids.len()
        invariant
            j <= ids@.len(),
            match best {
                Some(b) => ids@.contains(b) && b < cur && forall|k: int|
                    0 <= k < j && #[trigger] ids@[k] < cur ==> ids@[k] <= b,
                None => forall|k: int| 0 <= k < j ==> #[trigger] ids@[k] >= cur,
            },
        decreases ids@.len() - j,
    {
        let x = ids[j];
        if x < cur {
            match best {
                Some(b) => {
                    if x > b {
                        best = Some(x);
                    }
                },
                None => {
                    best = Some(x);
                },
            }
        }
        proof {
            if best is Some {
                assert(ids@.contains(best->0));
            }
        }
        j = j + 1;
    }
    best
}

/// The page of at most `limit` ids below `lt`, read downwards from `lt` and
/// returned in ascending order.
pub fn list_ids_lt(ids: &Vec<u128>, lt: u128, limit: usize) -> (r: Vec<u128>)
    ensures
        page_before(ids@, lt, limit as nat, r@),
{
    let mut desc: Vec<u128> = Vec::new();
    let mut cur = lt;
    let mut exhausted = false;
    while desc.len() < limit && !exhausted
        invariant
            desc@.len() <= limit,
            forall|i: int, j: int| 0 <= i < j < desc@.len() ==> desc@[i] > desc@[j],
            forall|i: int| 0 <= i < desc@.len() ==> ids@.contains(#[trigger] desc@[i]) && desc@[i] < lt,
            desc@.len() == 0 ==> cur == lt,
            desc@.len() > 0 ==> cur == desc@.last(),
            forall|x: u128| #[trigger] ids@.contains(x) && x < lt && x >= cur ==> desc@.contains(x),
            exhausted ==> forall|x: u128| #[trigger] ids@.contains(x) && x < lt ==> desc@.contains(x),
        decreases limit - desc@.len(), if exhausted { 0int } else { 1int },
    {
        match next_below(ids, cur) {
            None => {
                exhausted = true;
            },
            Some(b) => {
                let ghost before = desc@;
                desc.push(b);
                proof {
                    assert forall|x: u128| #[trigger] ids@.contains(x) && x < lt && x >= b implies desc@.contains(x) by {
                        if x < cur {
                            assert(x == b);
                            assert(desc@[desc@.len() - 1] == b);
                        } else {
                            let i = choose|i: int| 0 <= i < before.len() && before[i] == x;
                            assert(desc@[i] == x);
                        }
                    }
                    assert forall|i: int, j: int| 0 <= i < j < desc@.len() implies desc@[i] > desc@[j] by {
                        if j == desc@.len() - 1 && before.len() > 0 {
                            assert(before[i] >= before.last());
                        }
                    }
                }
                cur = b;
            },
        }
    }
    let n = desc.len();
    let mut out: Vec<u128> = Vec::new();
    let mut k: usize = 0;
    while k < n
        invariant
            k <= n,
            n == desc@.len(),
            out@.len() == k,
            forall|i: int| 0 <= i < k ==> #[trigger] out@[i] == desc@[n - 1 - i],
        decreases n - k,
    {
        out.push(desc[n - 1 - k]);
        k = k + 1;
    }
    proof {
        assert forall|i: int, j: int| 0 <= i < j < out@.len() implies out@[i] < out@[j] by {
            assert(desc@[n - 1 - j] > desc@[n - 1 - i]) by {
                assert(0 <= n - 1 - j < n - 1 - i < n);
            }
        }
        assert forall|i: int| 0 <= i < out@.len() implies ids@.contains(#[trigger] out@[i]) && out@[i] < lt by {
            assert(out@[i] == desc@[n - 1 - i]);
        }
        assert forall|x: u128|
            #[trigger] ids@.contains(x) && x < lt && (out@.len() < limit || (out@.len() > 0
                && out@[0] <= x)) implies out@.contains(x) by {
            if !exhausted {
                assert(out@[0] == desc@[n - 1]);
                assert(x >= cur);
            }
            let i = choose|i: int| 0 <= i < desc@.len() && desc@[i] == x;
            assert(out@[n - 1 - i] == x);
        }
    }
    out
}

/// A page request: the first ids, the ids after a cursor, or the ids
/// before one; each with a limit.
#[derive(Clone, Copy, Debug, PartialEq, Eq, Structural)]
pub enum ListQuery {
    Limit(usize),
    IdGt(u128, usize),
    IdLt(u128, usize),
}

/// `r` is the page that `query` asks for.
pub open spec fn page_of(ids: Seq<u128>, query: ListQuery, r: Seq<u128>) -> bool {
    match query {
        ListQuery::Limit(n) => page_after(ids, None, n as nat, r),
        ListQuery::IdGt(gt, n) => page_after(ids, Some(gt), n as nat, r),
        ListQuery::IdLt(lt, n) => page_before(ids, lt, n as nat, r),
    }
}

/// The page that `query` asks for.
pub fn list_ids(ids: &Vec<u128>, query: ListQuery) -> (r: Vec<u128>)
    ensures
        page_of(ids@, query, r@),
{
    match query {
        ListQuery::Limit(n) => list_ids_gt(ids, None, n),
        ListQuery::IdGt(gt, n) => list_ids_gt(ids, Some(gt), n),
        ListQuery::IdLt(lt, n) => list_ids_lt(ids, lt, n),
    }
}

} // verus!
