//! Proof of work over a public key, giving identities a security level.
//!
//! Making a keypair is instant, so a bare key proves nothing about the effort
//! behind it: a banned user simply makes another. A proof of work puts a price
//! on a usable identity while key generation itself stays free.
//!
//! The level is the number of leading zero bits in
//! `SHA-256(context || public_key || counter)`. Each level doubles the
//! expected search. The counter is a witness, not a secret: anyone can
//! recompute the level, so a peer's claim about its own is never trusted.

use crate::identity::crypto;
use crate::octets;
use vstd::prelude::*;

verus! {

/// How many hashes [`mine`] does between progress reports.
pub const PROGRESS_INTERVAL: u64 = 65536;

/// Keeps these hashes apart from any other use of SHA-256 over a public key.
pub open spec fn pow_context() -> Seq<u8> {
    vstd::utf8::encode_utf8("pickle-identity-pow-v1"@)
}

/// Zero bits before the first one bit, over all octets.
pub open spec fn zero_bits(digest: Seq<u8>) -> nat
    decreases digest.len(),
{
    if digest.len() == 0 {
        0
    } else if digest[0] == 0 {
        8 + zero_bits(digest.skip(1))
    } else {
        vstd::std_specs::bits::u8_leading_zeros(digest[0]) as nat
    }
}

/// The level that a counter earns a public key.
pub open spec fn level_of(public_key: Seq<u8>, counter: u64) -> nat {
    zero_bits(
        crypto::sha256_of(pow_context() + public_key + octets::le_bytes(counter as nat, 8)),
    )
}

/// The counter `n` steps after `start`, around the end of the range.
pub open spec fn counter_after(start: u64, n: nat) -> u64 {
    ((start + n) % 0x1_0000_0000_0000_0000) as u64
}

proof fn lemma_zero_bits_bound(digest: Seq<u8>)
    ensures
        zero_bits(digest) <= 8 * digest.len(),
    decreases digest.len(),
{
    broadcast use vstd::std_specs::bits::axiom_u8_leading_zeros;

    if digest.len() > 0 {
        lemma_zero_bits_bound(digest.skip(1));
    }
}

/// Counts leading zero bits.
pub fn leading_zero_bits(digest: &[u8]) -> (bits: u32)
    requires
        8 * digest@.len() <= u32::MAX,
    ensures
        bits as nat == zero_bits(digest@),
{
    let mut bits: u32 = 0;
    let mut i: usize = 0;
    assert(digest@.skip(0) =~= digest@);
    while i < digest.len()
        invariant
            i <= digest@.len(),
            8 * digest@.len() <= u32::MAX,
            bits == 8 * i,
            zero_bits(digest@) == bits + zero_bits(digest@.skip(i as int)),
        decreases digest@.len() - i,
    {
        let byte: u8 = digest[i];
        proof {
            assert(digest@.skip(i as int).skip(1) =~= digest@.skip(i + 1));
        }
        if byte != 0 {
            proof {
                broadcast use vstd::std_specs::bits::axiom_u8_leading_zeros;

                assert(digest@.skip(i as int)[0] == byte);
            }
            return bits + byte.leading_zeros();
        }
        bits += 8;
        i += 1;
    }
    bits
}

/// The security level of a public key with a counter.
pub fn security_level(public_key: &[u8; 32], counter: u64) -> (level: u32)
    ensures
        level as nat == level_of(public_key@, counter),
        level <= 256,
{
    let mut input: Vec<u8> = Vec::new();
    let context: &[u8] = "pickle-identity-pow-v1".as_bytes();
    let counter_bytes: [u8; 8] = octets::u64_to_le(counter);
    octets::append(&mut input, context);
    octets::append(&mut input, public_key);
    octets::append(&mut input, &counter_bytes);
    let digest: [u8; 32] = crypto::sha256(&input);
    proof {
        lemma_zero_bits_bound(digest@);
    }
    leading_zero_bits(&digest)
}

/// A progress sample handed to the callback during [`mine`].
#[derive(Debug, Clone, Copy, PartialEq, Eq, Structural)]
pub struct MineProgress {
    /// Counter currently under test.
    pub counter: u64,
    /// Best level found so far, including the starting counter.
    pub best_level: u32,
    /// Hashes computed in this run.
    pub hashes: u64,
}

/// The outcome of a [`mine`] run.
#[derive(Debug, Clone, Copy, PartialEq, Eq, Structural)]
pub struct MineReport {
    /// Best counter found. Never worse than the one passed in.
    pub counter: u64,
    /// Level that counter achieves.
    pub level: u32,
    /// Hashes computed in this run.
    pub hashes: u64,
    /// Whether the callback asked to stop before the target was reached.
    pub cancelled: bool,
}

/// Whether `best` is the first counter of the `hashes + 1` from `start` on
/// that reaches `level`, and none of them reaches more.
pub open spec fn is_best(
    public_key: Seq<u8>,
    start: u64,
    hashes: nat,
    best: u64,
    level: nat,
) -> bool {
    exists|at: nat|
        at <= hashes && best == #[trigger] counter_after(start, at) && level == level_of(
            public_key,
            best,
        ) && (forall|n: nat|
            n < at ==> level_of(public_key, #[trigger] counter_after(start, n)) < level) && (forall|
            n: nat,
        |
            n <= hashes ==> level_of(public_key, #[trigger] counter_after(start, n)) <= level)
}

/// The highest level among the `hashes + 1` counters from `start` on.
pub open spec fn top_level(public_key: Seq<u8>, start: u64, hashes: nat) -> nat
    decreases hashes,
{
    let here = level_of(public_key, counter_after(start, hashes));
    if hashes == 0 {
        here
    } else {
        let before = top_level(public_key, start, (hashes - 1) as nat);
        if here > before {
            here
        } else {
            before
        }
    }
}

/// What the callback is shown after this many hashes.
pub open spec fn sample(public_key: Seq<u8>, start: u64, hashes: u64) -> MineProgress {
    MineProgress {
        counter: counter_after(start, hashes as nat),
        best_level: top_level(public_key, start, hashes as nat) as u32,
        hashes,
    }
}

/// What the callback was asked and how it answered: a sample every
/// [`PROGRESS_INTERVAL`] hashes, and `true` to each but perhaps the last. The
/// run was cancelled if the last answer was `false` and the target had not been
/// reached.
pub open spec fn was_asked<F: FnMut(MineProgress) -> bool>(
    public_key: Seq<u8>,
    start: u64,
    target: u32,
    progress: F,
    report: MineReport,
) -> bool {
    &&& forall|h: u64|
        0 < h < report.hashes && h % PROGRESS_INTERVAL == 0 ==> call_ensures(
            progress,
            (#[trigger] sample(public_key, start, h),),
            true,
        )
    &&& report.hashes > 0 && report.hashes % PROGRESS_INTERVAL == 0 ==> exists|go_on: bool|
        #[trigger] call_ensures(progress, (sample(public_key, start, report.hashes),), go_on)
            && report.cancelled == (!go_on && report.level < target)
}

/// What a run of [`mine`] owes, whatever the callback answered: the best
/// counter scanned, a search that went no further than the first counter to
/// reach the target, and an end only for one of three reasons. Cancelled means
/// stopped short of the target.
pub open spec fn is_report(
    public_key: Seq<u8>,
    start: u64,
    target: u32,
    report: MineReport,
) -> bool {
    &&& is_best(public_key, start, report.hashes as nat, report.counter, report.level as nat)
    &&& forall|n: nat|
        n < report.hashes ==> level_of(public_key, #[trigger] counter_after(start, n)) < target
    &&& report.cancelled ==> report.hashes > 0 && report.hashes % PROGRESS_INTERVAL == 0
        && report.level < target
    &&& !report.cancelled ==> report.level >= target || report.hashes == u64::MAX
}

/// Searches for a counter reaching `target_level`.
///
/// Scanning resumes at `start_counter`, so repeated calls extend the previous
/// search. `progress` is asked every [`PROGRESS_INTERVAL`] hashes and answers
/// `false` to cancel; the best counter so far is still returned, so partial
/// work is kept. Once every counter has been tried the search ends too.
///
/// This occupies the calling thread, for a long time at high targets.
pub fn mine<F: FnMut(MineProgress) -> bool>(
    public_key: &[u8; 32],
    start_counter: u64,
    target_level: u32,
    progress: &mut F,
) -> (report: MineReport)
    requires
        forall|p: MineProgress| #[trigger] call_requires(*old(progress), (p,)),
    ensures
        is_report(public_key@, start_counter, target_level, report),
        was_asked(public_key@, start_counter, target_level, *old(progress), report),
{
    let mut best_counter: u64 = start_counter;
    let mut best_level: u32 = security_level(public_key, start_counter);
    let mut hashes: u64 = 0;
    let mut counter: u64 = start_counter;
    let mut cancelled: bool = false;
    assert(counter_after(start_counter, 0) == start_counter);
    while best_level < target_level && hashes < u64::MAX && !cancelled
        invariant
            counter == counter_after(start_counter, hashes as nat),
            is_best(public_key@, start_counter, hashes as nat, best_counter, best_level as nat),
            forall|n: nat|
                n < hashes ==> level_of(public_key@, #[trigger] counter_after(start_counter, n))
                    < target_level,
            cancelled ==> hashes > 0 && hashes % PROGRESS_INTERVAL == 0 && best_level
                < target_level,
            best_level as nat == top_level(public_key@, start_counter, hashes as nat),
            forall|h: u64|
                0 < h < hashes && h % PROGRESS_INTERVAL == 0 ==> call_ensures(
                    *progress,
                    (#[trigger] sample(public_key@, start_counter, h),),
                    true,
                ),
            hashes > 0 && hashes % PROGRESS_INTERVAL == 0 ==> exists|go_on: bool| #[trigger]
                call_ensures(
                    *progress,
                    (sample(public_key@, start_counter, hashes),),
                    go_on,
                ) && cancelled == (!go_on && best_level < target_level),
            *progress == *old(progress),
            forall|p: MineProgress| #[trigger] call_requires(*progress, (p,)),
        decreases u64::MAX - hashes,
    {
        let ghost at = choose|at: nat|
            at <= hashes && best_counter == #[trigger] counter_after(start_counter, at)
                && best_level as nat == level_of(public_key@, best_counter) && (forall|n: nat|
                n < at ==> level_of(public_key@, #[trigger] counter_after(start_counter, n))
                    < best_level) && (forall|n: nat|
                n <= hashes ==> level_of(public_key@, #[trigger] counter_after(start_counter, n))
                    <= best_level);
        counter = counter.wrapping_add(1);
        hashes += 1;
        assert(counter == counter_after(start_counter, hashes as nat));
        let level: u32 = security_level(public_key, counter);
        if level > best_level {
            best_level = level;
            best_counter = counter;
        } else {
            assert(best_counter == counter_after(start_counter, at));
        }
        assert(is_best(
            public_key@,
            start_counter,
            hashes as nat,
            best_counter,
            best_level as nat,
        ));
        if hashes % PROGRESS_INTERVAL == 0 {
            let go_on: bool = progress(MineProgress { counter, best_level, hashes });
            cancelled = !go_on && best_level < target_level;
            assert(call_ensures(
                *progress,
                (sample(public_key@, start_counter, hashes),),
                go_on,
            ));
        }
    }
    MineReport { counter: best_counter, level: best_level, hashes, cancelled }
}

/// Expected number of hashes to reach `level`: two to that power, or the
/// largest number when that does not fit.
pub fn expected_hashes(level: u32) -> (hashes: u64)
    ensures
        hashes as nat == if level < 64 {
            vstd::arithmetic::power2::pow2(level as nat)
        } else {
            u64::MAX as nat
        },
{
    if level >= 64 {
        return u64::MAX;
    }
    let mut hashes: u64 = 1;
    let mut i: u32 = 0;
    proof {
        vstd::arithmetic::power2::lemma2_to64();
    }
    while i < level
        invariant
            i <= level < 64,
            hashes as nat == vstd::arithmetic::power2::pow2(i as nat),
        decreases level - i,
    {
        proof {
            vstd::arithmetic::power2::lemma_pow2_unfold((i + 1) as nat);
            vstd::arithmetic::power2::lemma2_to64_rest();
            if i + 1 < 63 {
                vstd::arithmetic::power2::lemma_pow2_strictly_increases((i + 1) as nat, 63);
            }
        }
        hashes = hashes * 2;
        i += 1;
    }
    hashes
}

/// The best level in a sample is the highest of all counters tried so far: none
/// of them has more, and one of them has it.
pub proof fn law_a_sample_shows_the_best_level(public_key: Seq<u8>, start: u64, hashes: nat)
    ensures
        forall|n: nat|
            n <= hashes ==> level_of(public_key, #[trigger] counter_after(start, n)) <= top_level(
                public_key,
                start,
                hashes,
            ),
        exists|n: nat|
            n <= hashes && level_of(public_key, #[trigger] counter_after(start, n)) == top_level(
                public_key,
                start,
                hashes,
            ),
    decreases hashes,
{
    if hashes > 0 {
        let before = (hashes - 1) as nat;
        law_a_sample_shows_the_best_level(public_key, start, before);
        let n = choose|n: nat|
            n <= before && level_of(public_key, #[trigger] counter_after(start, n)) == top_level(
                public_key,
                start,
                before,
            );
        if top_level(public_key, start, hashes) == top_level(public_key, start, before) {
            assert(level_of(public_key, counter_after(start, n)) == top_level(
                public_key,
                start,
                hashes,
            ));
        } else {
            assert(level_of(public_key, counter_after(start, hashes)) == top_level(
                public_key,
                start,
                hashes,
            ));
        }
    } else {
        assert(level_of(public_key, counter_after(start, 0)) == top_level(public_key, start, 0));
    }
}

/// A callback that never answers `false` is never the end of a search.
pub proof fn law_a_willing_callback_never_cancels<F: FnMut(MineProgress) -> bool>(
    public_key: Seq<u8>,
    start: u64,
    target: u32,
    progress: F,
    report: MineReport,
)
    requires
        is_report(public_key, start, target, report),
        was_asked(public_key, start, target, progress, report),
        forall|p: MineProgress, go_on: bool| #[trigger]
            call_ensures(progress, (p,), go_on) ==> go_on,
    ensures
        !report.cancelled,
        report.level >= target || report.hashes == u64::MAX,
{
}

/// Mining never returns a worse counter than it started with, and asking for
/// a level already held changes nothing and costs nothing. While counters are
/// left to try, stopping short of the target means that it was cancelled.
pub proof fn law_mining_never_loses(
    public_key: Seq<u8>,
    start: u64,
    target: u32,
    report: MineReport,
)
    requires
        is_report(public_key, start, target, report),
    ensures
        report.level >= level_of(public_key, start),
        report.level as nat == level_of(public_key, report.counter),
        level_of(public_key, start) >= target ==> report.hashes == 0 && report.counter == start
            && !report.cancelled,
        report.hashes < u64::MAX ==> (report.cancelled <==> report.level < target),
{
    assert(counter_after(start, 0) == start);
}

/// The zero bits counted are those before the first one bit: whole octets of
/// zero, then an octet whose high bits are zero and whose next bit is one.
pub proof fn law_leading_zero_bits_end_at_a_one(digest: Seq<u8>)
    ensures
        ({
            let n = zero_bits(digest) as int;
            &&& n <= 8 * digest.len()
            &&& forall|i: int| 0 <= i < n / 8 ==> digest[i] == 0
            &&& n < 8 * digest.len() ==> {
                let first = digest[n / 8];
                let bit = (7 - n % 8) as u8;
                (first >> bit) == 1
            }
        }),
    decreases digest.len(),
{
    lemma_zero_bits_bound(digest);
    if digest.len() > 0 {
        let rest = digest.skip(1);
        if digest[0] == 0 {
            law_leading_zero_bits_end_at_a_one(rest);
            let n = zero_bits(digest) as int;
            let m = zero_bits(rest) as int;
            assert(n == 8 + m && n / 8 == m / 8 + 1 && n % 8 == m % 8);
            assert forall|i: int| 0 <= i < n / 8 implies digest[i] == 0 by {
                if i > 0 {
                    assert(rest[i - 1] == digest[i]);
                }
            }
            if n < 8 * digest.len() {
                assert(digest[n / 8] == rest[m / 8]);
            }
        } else {
            vstd::std_specs::bits::axiom_u8_leading_zeros(digest[0]);
            let x = digest[0];
            let z = vstd::std_specs::bits::u8_leading_zeros(x) as u8;
            let down = (7 - z) as u8;
            let above = (8 - z) as u8;
            assert(z < 8);
            assert((x >> down) & 1u8 != 0u8);
            assert(x >> above == 0);
            assert((x >> down) == 1) by (bit_vector)
                requires
                    z < 8,
                    down == 7 - z,
                    above == 8 - z,
                    (x >> down) & 1u8 != 0u8,
                    x >> above == 0,
            ;
        }
    }
}

/// A level is counted on the hash of the context, the public key and the counter
/// in eight octets, in that order and with nothing else.
pub proof fn law_what_a_level_is_counted_on(key: Seq<u8>, counter: u64, input: Seq<u8>)
    requires
        key.len() == 32,
        input.len() == 62,
        input.take(22) == vstd::utf8::encode_utf8("pickle-identity-pow-v1"@),
        input.subrange(22, 54) == key,
        octets::le_value(input.skip(54)) == counter,
    ensures
        level_of(key, counter) == zero_bits(crypto::sha256_of(input)),
{
    reveal_strlit("pickle-identity-pow-v1");
    vstd::utf8::is_ascii_chars_encode_utf8("pickle-identity-pow-v1"@);
    octets::lemma_le_bytes_of_value(input.skip(54));
    assert(input =~= pow_context() + key + octets::le_bytes(counter as nat, 8));
}

/// Counters follow one another, and 0 follows the last.
pub proof fn law_counters_follow_one_another(start: u64, n: nat)
    ensures
        counter_after(start, 0) == start,
        counter_after(start, n) < u64::MAX ==> counter_after(start, n + 1) == counter_after(
            start,
            n,
        ) + 1,
        counter_after(start, n) == u64::MAX ==> counter_after(start, n + 1) == 0,
{
}

/// The counter reported is the first of those tried to have the highest level;
/// where the target is reached, it is the last one tried, and no counter before
/// it reached the target.
pub proof fn law_the_search_ends_at_the_target(
    key: Seq<u8>,
    start: u64,
    target: u32,
    report: MineReport,
    n: nat,
)
    requires
        is_report(key, start, target, report),
        n <= report.hashes,
    ensures
        level_of(key, counter_after(start, n)) <= report.level,
        n < report.hashes ==> level_of(key, counter_after(start, n)) < target,
        report.level as nat == level_of(key, report.counter),
        exists|at: nat|
            at <= report.hashes && #[trigger] counter_after(start, at) == report.counter && forall|
                m: nat,
            |
                m < at ==> level_of(key, #[trigger] counter_after(start, m)) < report.level,
        report.level >= target ==> report.counter == counter_after(start, report.hashes as nat),
        report.cancelled ==> report.level < target && report.hashes > 0 && report.hashes % 65536
            == 0,
        !report.cancelled && report.hashes < u64::MAX ==> report.level >= target,
{
    let at = choose|at: nat|
        at <= report.hashes && report.counter == #[trigger] counter_after(start, at)
            && report.level as nat == level_of(key, report.counter) && (forall|m: nat|
            m < at ==> level_of(key, #[trigger] counter_after(start, m)) < report.level) && (forall|
            m: nat,
        |
            m <= report.hashes ==> level_of(key, #[trigger] counter_after(start, m))
                <= report.level);
    assert(counter_after(start, at) == report.counter);
    if at < report.hashes {
        assert(level_of(key, counter_after(start, at)) < target);
    }
}

/// A sample tells the counter under test, how many hashes were made, and the
/// best level so far.
pub proof fn law_what_a_sample_tells(key: Seq<u8>, start: u64, hashes: u64)
    ensures
        sample(key, start, hashes).hashes == hashes,
        sample(key, start, hashes).counter == counter_after(start, hashes as nat),
        top_level(key, start, hashes as nat) <= u32::MAX ==> sample(key, start, hashes).best_level
            == top_level(key, start, hashes as nat),
{
}

/// The callback is asked every 65536 hashes and goes on being asked only while
/// it agrees; its last answer decides whether a run that stopped short was
/// cancelled.
pub proof fn law_the_callback_is_asked_at_intervals<F: FnMut(MineProgress) -> bool>(
    key: Seq<u8>,
    start: u64,
    target: u32,
    progress: F,
    report: MineReport,
    h: u64,
)
    requires
        was_asked(key, start, target, progress, report),
        0 < h <= report.hashes,
        h % 65536 == 0,
    ensures
        h < report.hashes ==> call_ensures(progress, (sample(key, start, h),), true),
        h == report.hashes ==> exists|go_on: bool| #[trigger]
            call_ensures(progress, (sample(key, start, h),), go_on) && (report.cancelled <==> !go_on
                && report.level < target),
{
}


/// The best counter is one of those searched, none searched is better, and none
/// searched before it is as good.
pub proof fn law_the_best_counter_is_the_first_of_the_best(
    key: Seq<u8>,
    start: u64,
    hashes: nat,
    best: u64,
    level: nat,
    n: nat,
)
    requires
        is_best(key, start, hashes, best, level),
        n <= hashes,
    ensures
        level == level_of(key, best),
        level_of(key, counter_after(start, n)) <= level,
        level_of(key, counter_after(start, n)) == level ==> exists|at: nat|
            at <= n && best == #[trigger] counter_after(start, at),
{
}

/// Each level doubles the hashes that it takes, until the count is full.
pub proof fn law_each_level_doubles_the_work(level: u32, here: u64, next: u64)
    requires
        level < u32::MAX,
        call_ensures(expected_hashes, (level,), here),
        call_ensures(expected_hashes, ((level + 1) as u32,), next),
    ensures
        level == 0 ==> here == 1,
        level < 63 ==> next == 2 * here,
        level >= 63 ==> next == u64::MAX,
{
    vstd::arithmetic::power2::lemma2_to64();
    if level < 63 {
        vstd::arithmetic::power2::lemma_pow2_unfold((level + 1) as nat);
    }
}
} // verus!
