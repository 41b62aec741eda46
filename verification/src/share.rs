//! How the parallel streams of a client are shared out among threads.
use vstd::prelude::*;

verus! {

/// A run of consecutive streams: `count` of them, starting with `base`.
#[derive(Clone, Copy, Debug, PartialEq, Eq, Structural)]
pub struct Share {
    pub base: usize,
    pub count: usize,
}

/// How many of `total` streams thread `i` of `threads` carries: an equal
/// part, and one more on the first threads while streams are left over.
pub open spec fn share_count(total: nat, threads: nat, i: nat) -> nat {
    total / threads + if i < total % threads {
        1nat
    } else {
        0nat
    }
}

/// The first stream of thread `i`: as many as all threads before it carry.
pub open spec fn share_base(total: nat, threads: nat, i: nat) -> nat
    decreases i,
{
    if i == 0 {
        0
    } else {
        share_base(total, threads, (i - 1) as nat) + share_count(total, threads, (i - 1) as nat)
    }
}

/// How many threads have anything to carry.
pub open spec fn busy_threads(total: nat, threads: nat) -> nat {
    if total < threads {
        total
    } else {
        threads
    }
}

proof fn lemma_base(total: nat, threads: nat, i: nat)
    requires
        0 < threads,
    ensures
        share_base(total, threads, i) == i * (total / threads) + if i < total % threads {
            i
        } else {
            total % threads
        },
    decreases i,
{
    if i == 0 {
        assert(i * (total / threads) == 0) by (nonlinear_arith)
            requires
                i == 0,
        ;
        vstd::arithmetic::div_mod::lemma_mod_bound(total as int, threads as int);
    } else {
        lemma_base(total, threads, (i - 1) as nat);
        assert(i * (total / threads) == (i - 1) * (total / threads) + total / threads)
            by (nonlinear_arith)
            requires
                i > 0,
                threads > 0,
        ;
    }
}

proof fn lemma_base_monotonic(total: nat, threads: nat, i: nat, j: nat)
    requires
        i <= j,
    ensures
        share_base(total, threads, i) <= share_base(total, threads, j),
    decreases j,
{
    if i < j {
        lemma_base_monotonic(total, threads, i, (j - 1) as nat);
    }
}

/// The threads together carry all the streams: the busy ones as well as all
/// of them.
pub proof fn law_shares_add_up(total: nat, threads: nat)
    requires
        0 < threads,
    ensures
        share_base(total, threads, threads) == total,
        share_base(total, threads, busy_threads(total, threads)) == total,
{
    lemma_base(total, threads, threads);
    vstd::arithmetic::div_mod::lemma_fundamental_div_mod(total as int, threads as int);
    if total < threads {
        lemma_base(total, threads, total);
        vstd::arithmetic::div_mod::lemma_small_mod(total, threads);
        vstd::arithmetic::div_mod::lemma_basic_div(total as int, threads as int);
        assert(total * 0 == 0) by (nonlinear_arith);
    }
}

/// No thread carries over one stream more than another.
pub proof fn law_shares_are_even(total: nat, threads: nat, i: nat, j: nat)
    requires
        0 < threads,
    ensures
        share_count(total, threads, i) <= share_count(total, threads, j) + 1,
{
}

/// Whether thread `i` carries `stream`.
pub open spec fn carries(total: nat, threads: nat, i: nat, stream: nat) -> bool {
    share_base(total, threads, i) <= stream < share_base(total, threads, i) + share_count(
        total,
        threads,
        i,
    )
}

/// Share out `total` streams among `threads` threads. Threads that would
/// carry nothing get no share.
pub fn share_streams(total: usize, threads: usize) -> (shares: Vec<Share>)
    requires
        0 < threads,
    ensures
        shares@.len() == busy_threads(total as nat, threads as nat),
        forall|i: int|
            0 <= i < shares@.len() ==> (#[trigger] shares@[i]).base == share_base(
                total as nat,
                threads as nat,
                i as nat,
            ),
        forall|i: int|
            0 <= i < shares@.len() ==> (#[trigger] shares@[i]).count == share_count(
                total as nat,
                threads as nat,
                i as nat,
            ),
        forall|i: int|
            0 <= i < shares@.len() ==> (#[trigger] shares@[i]).count > 0 && shares@[i].base
                + shares@[i].count <= total,
{
    let per_thread: usize = total / threads;
    let remainder: usize = total % threads;
    let mut shares: Vec<Share> = Vec::new();
    let mut base: usize = 0;
    let mut thread: usize = 0;
    proof {
        law_shares_add_up(total as nat, threads as nat);
        if total < threads {
            vstd::arithmetic::div_mod::lemma_small_mod(total as nat, threads as nat);
            vstd::arithmetic::div_mod::lemma_basic_div(total as int, threads as int);
        } else {
            vstd::arithmetic::div_mod::lemma_div_non_zero(total as int, threads as int);
        }
    }
    while thread < threads
        invariant_except_break
            shares@.len() == thread,
        invariant
            0 < threads,
            thread <= threads,
            per_thread == total / threads,
            remainder == total % threads,
            total < threads ==> per_thread == 0 && remainder == total,
            total >= threads ==> per_thread > 0,
            share_base(total as nat, threads as nat, threads as nat) == total,
            base == share_base(total as nat, threads as nat, thread as nat),
            forall|i: int|
                0 <= i < shares@.len() ==> (#[trigger] shares@[i]).base == share_base(
                    total as nat,
                    threads as nat,
                    i as nat,
                ),
            forall|i: int|
                0 <= i < shares@.len() ==> (#[trigger] shares@[i]).count == share_count(
                    total as nat,
                    threads as nat,
                    i as nat,
                ),
            forall|i: int|
                0 <= i < shares@.len() ==> (#[trigger] shares@[i]).count > 0 && shares@[i].base
                    + shares@[i].count <= total,
            shares@.len() <= busy_threads(total as nat, threads as nat),
        ensures
            shares@.len() == busy_threads(total as nat, threads as nat),
        decreases threads - thread,
    {
        proof {
            lemma_base_monotonic(
                total as nat,
                threads as nat,
                (thread + 1) as nat,
                threads as nat,
            );
        }
        let extra: usize = if thread < remainder {
            1
        } else {
            0
        };
        let count: usize = per_thread + extra;
        if count == 0 {
            break;
        }
        shares.push(Share { base, count });
        base = base + count;
        thread = thread + 1;
    }
    shares
}

/// Every stream is carried by exactly one thread.
pub proof fn law_each_stream_has_one_thread(total: nat, threads: nat, stream: nat)
    requires
        0 < threads,
        stream < total,
    ensures
        exists|i: nat|
            i < busy_threads(total, threads) && #[trigger] carries(total, threads, i, stream),
        forall|i: nat, j: nat|
            #[trigger] carries(total, threads, i, stream) && #[trigger] carries(
                total,
                threads,
                j,
                stream,
            ) ==> i == j,
{
    law_shares_add_up(total, threads);
    lemma_carrier_exists(total, threads, stream, busy_threads(total, threads));
    assert forall|i: nat, j: nat|
        #[trigger] carries(total, threads, i, stream) && #[trigger] carries(
            total,
            threads,
            j,
            stream,
        ) implies i == j by {
        if i < j {
            lemma_base_monotonic(total, threads, i + 1, j);
        } else if j < i {
            lemma_base_monotonic(total, threads, j + 1, i);
        }
    }
}

proof fn lemma_carrier_exists(total: nat, threads: nat, stream: nat, n: nat)
    requires
        stream < share_base(total, threads, n),
    ensures
        exists|i: nat| i < n && #[trigger] carries(total, threads, i, stream),
    decreases n,
{
    let i = (n - 1) as nat;
    if stream < share_base(total, threads, i) {
        lemma_carrier_exists(total, threads, stream, i);
    } else {
        assert(carries(total, threads, i, stream));
    }
}

/// Threads carry streams one run after the other, from stream 0 on. Those that
/// carry one more come first, and the busy ones are those that carry any.
pub proof fn law_shares_follow_each_other(total: nat, threads: nat, i: nat, j: nat)
    requires
        0 < threads,
        i <= j < threads,
    ensures
        share_base(total, threads, 0) == 0,
        share_base(total, threads, i + 1) == share_base(total, threads, i) + share_count(
            total,
            threads,
            i,
        ),
        share_count(total, threads, i) >= share_count(total, threads, j),
        share_count(total, threads, i) > 0 <==> i < busy_threads(total, threads),
{
    if total < threads {
        vstd::arithmetic::div_mod::lemma_small_mod(total, threads);
        vstd::arithmetic::div_mod::lemma_basic_div(total as int, threads as int);
    } else {
        vstd::arithmetic::div_mod::lemma_div_non_zero(total as int, threads as int);
    }
}

} // verus!
