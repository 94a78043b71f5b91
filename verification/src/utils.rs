//! All-purpose utility.

use vstd::prelude::*;

verus! {

/// `v` is a value that `T::default()` returns.
pub open spec fn is_default_value<T: Default>(v: T) -> bool {
    call_ensures(T::default, (), v)
}

/// Returns the number of workers desired for the given workload size, when `thread_count`
/// threads are available: the workload divided by the thread count, rounded up.
pub fn worker_count(workload_size: usize, thread_count: usize) -> (r: usize)
    requires
        workload_size > 0,
        thread_count > 0,
    ensures
        r == (workload_size + thread_count - 1) / (thread_count as int),
        r > 0,
        (r - 1) * thread_count < workload_size <= r * thread_count,
{
    proof {
        vstd::arithmetic::div_mod::lemma_fundamental_div_mod(
            workload_size as int,
            thread_count as int,
        );
        vstd::arithmetic::div_mod::lemma_mod_bound(workload_size as int, thread_count as int);
        vstd::arithmetic::div_mod::lemma_div_pos_is_pos(workload_size as int, thread_count as int);
        let q = workload_size as int / thread_count as int;
        let rem = workload_size as int % thread_count as int;
        if rem == 0 {
            assert(q * thread_count == workload_size) by (nonlinear_arith)
                requires
                    workload_size == thread_count * q + rem,
                    rem == 0,
            ;
            vstd::arithmetic::div_mod::lemma_fundamental_div_mod_converse(
                workload_size + thread_count - 1,
                thread_count as int,
                q,
                thread_count - 1,
            );
            assert(q > 0 && (q - 1) * thread_count < workload_size) by (nonlinear_arith)
                requires
                    q * thread_count == workload_size,
                    workload_size > 0,
                    thread_count > 0,
                    q >= 0,
            ;
        } else {
            assert(workload_size + thread_count - 1 == (q + 1) * thread_count + (rem - 1)
                && q * thread_count < workload_size <= (q + 1) * thread_count) by (nonlinear_arith)
                requires
                    workload_size == thread_count * q + rem,
                    0 < rem < thread_count,
            ;
            vstd::arithmetic::div_mod::lemma_fundamental_div_mod_converse(
                workload_size + thread_count - 1,
                thread_count as int,
                q + 1,
                rem - 1,
            );
            assert(q < usize::MAX) by (nonlinear_arith)
                requires
                    q * thread_count < workload_size,
                    workload_size <= usize::MAX,
                    thread_count >= 2,
                    q >= 0,
            ;
        }
    }
    workload_size / thread_count + if workload_size % thread_count != 0 {
        1
    } else {
        0
    }
}

} // verus!
