//! Computations of the host resource collector.
//!
//! Reading the process table, sockets and disks is outside work that hands
//! the library plain values; the library owns the decisions: bucketing TCP
//! connections by state (for the host and per process), summing open-file
//! counts, skipping container-internal pseudo-mounts, labelling cores, and
//! reading pid texts as numbers.

use vstd::prelude::*;
use crate::numeric::{all_digits, is_digit};
use crate::registry::tcp_state_texts;

verus! {

/// One TCP socket as the enumeration reports it: the index of its
/// connection state in `tcp_state_texts`, and the owning pids.
pub struct SocketEntry {
    pub state: usize,
    pub pids: Vec<u64>,
}

/// Whether a socket counts for a state bucket, under an optional pid filter.
pub open spec fn socket_counts(e: SocketEntry, s: int, pid: Option<u64>) -> bool {
    &&& e.state == s
    &&& match pid {
        None => true,
        Some(p) => e.pids@.contains(p),
    }
}

/// How many of the first `n` sockets count for state `s`.
pub open spec fn state_count(sockets: Seq<SocketEntry>, s: int, pid: Option<u64>, n: int) -> int
    decreases n,
{
    if n <= 0 {
        0
    } else {
        state_count(sockets, s, pid, n - 1) + if socket_counts(sockets[n - 1], s, pid) {
            1int
        } else {
            0int
        }
    }
}

proof fn lemma_state_count_bound(sockets: Seq<SocketEntry>, s: int, pid: Option<u64>, n: int)
    requires
        0 <= n <= sockets.len(),
    ensures
        0 <= state_count(sockets, s, pid, n) <= n,
    decreases n,
{
    if n > 0 {
        lemma_state_count_bound(sockets, s, pid, n - 1);
    }
}

/// Whether a pid is among a socket's owners.
fn pids_contain(pids: &Vec<u64>, p: u64) -> (r: bool)
    ensures
        r == pids@.contains(p),
{
    let n = pids.len();
    let mut i: usize = 0;
    while i < n
        invariant
            n == pids@.len(),
            0 <= i <= n,
            forall|j: int| 0 <= j < i ==> pids@[j] != p,
        decreases n - i,
    {
        if pids[i] == p {
            return true;
        }
        i += 1;
    }
    false
}

/// Count the sockets in each TCP connection state, over the whole host or
/// for one process.
pub fn count_tcp_states(sockets: &Vec<SocketEntry>, pid: Option<u64>) -> (r: Vec<u64>)
    ensures
        r@.len() == tcp_state_texts().len(),
        forall|s: int|
            0 <= s < r@.len() ==> #[trigger] r@[s] == state_count(
                sockets@,
                s,
                pid,
                sockets@.len() as int,
            ),
{
    let states = crate::registry::tcp_state_names();
    let total = states.len();
    let n = sockets.len();
    let mut r: Vec<u64> = Vec::new();
    let mut s: usize = 0;
    proof {
        assert(crate::text::views(states@).len() == states@.len());
    }
    while s < total
        invariant
            total == tcp_state_texts().len(),
            n == sockets@.len(),
            0 <= s <= total,
            r@.len() == s,
            forall|q: int|
                0 <= q < s ==> #[trigger] r@[q] == state_count(sockets@, q, pid, n as int),
        decreases total - s,
    {
        let mut c: u64 = 0;
        let mut i: usize = 0;
        while i < n
            invariant
                n == sockets@.len(),
                0 <= i <= n,
                c == state_count(sockets@, s as int, pid, i as int),
                c <= i,
            decreases n - i,
        {
            let hit = if sockets[i].state == s {
                match pid {
                    None => true,
                    Some(p) => pids_contain(&sockets[i].pids, p),
                }
            } else {
                false
            };
            proof {
                assert(hit == socket_counts(sockets@[i as int], s as int, pid));
            }
            if hit {
                c += 1;
            }
            i += 1;
        }
        r.push(c);
        s += 1;
    }
    r
}

/// The sum of the first `n` counts.
pub open spec fn total_of(vals: Seq<u64>, n: int) -> int
    decreases n,
{
    if n <= 0 {
        0
    } else {
        total_of(vals, n - 1) + vals[n - 1]
    }
}

/// Sum per-process counts into a host aggregate, saturating at the top of
/// the range.
pub fn sum_counts(vals: &Vec<u64>) -> (r: u64)
    ensures
        r == if total_of(vals@, vals@.len() as int) > u64::MAX {
            u64::MAX as int
        } else {
            total_of(vals@, vals@.len() as int)
        },
{
    let n = vals.len();
    let mut acc: u64 = 0;
    let mut i: usize = 0;
    while i < n
        invariant
            n == vals@.len(),
            0 <= i <= n,
            acc == if total_of(vals@, i as int) > u64::MAX {
                u64::MAX as int
            } else {
                total_of(vals@, i as int)
            },
            total_of(vals@, i as int) >= acc,
        decreases n - i,
    {
        let v = vals[i];
        if acc > u64::MAX - v {
            acc = u64::MAX;
        } else {
            acc = acc + v;
        }
        proof {
            assert(total_of(vals@, i + 1) == total_of(vals@, i as int) + vals@[i as int]);
        }
        i += 1;
    }
    acc
}

/// Whether `t` occurs as a substring of `s`.
pub open spec fn has_substring(s: Seq<char>, t: Seq<char>) -> bool {
    exists|i: int| 0 <= i <= s.len() - t.len() && #[trigger] s.subrange(i, i + t.len()) == t
}

/// Executable substring search.
fn contains_substring(s: &str, t: &str) -> (r: bool)
    ensures
        r == has_substring(s@, t@),
{
    let n = s.unicode_len();
    let m = t.unicode_len();
    if m > n {
        proof {
            if has_substring(s@, t@) {
                let i = choose|i: int|
                    0 <= i <= s@.len() - t@.len() && #[trigger] s@.subrange(i, i + t@.len()) == t@;
                assert(false);
            }
        }
        return false;
    }
    let mut i: usize = 0;
    while i <= n - m
        invariant
            n == s@.len(),
            m == t@.len(),
            m <= n,
            0 <= i <= n - m + 1,
            forall|j: int| 0 <= j < i ==> #[trigger] s@.subrange(j, j + t@.len()) != t@,
        decreases n - m + 1 - i,
    {
        let mut k: usize = 0;
        let mut all_eq = true;
        while k < m
            invariant
                n == s@.len(),
                m == t@.len(),
                0 <= i <= n - m,
                0 <= k <= m,
                all_eq == (forall|q: int| 0 <= q < k ==> #[trigger] s@[i + q] == t@[q]),
            decreases m - k,
        {
            if s.get_char(i + k) != t.get_char(k) {
                all_eq = false;
                proof {
                    assert(!(forall|q: int| 0 <= q < k + 1 ==> #[trigger] s@[i + q] == t@[q]));
                }
                k = m;
            } else {
                proof {
                    if all_eq {
                        assert(forall|q: int| 0 <= q < k + 1 ==> #[trigger] s@[i + q] == t@[q]);
                    }
                }
                k += 1;
            }
        }
        if all_eq {
            proof {
                assert(forall|q: int|
                    0 <= q < m ==> #[trigger] s@.subrange(i as int, i + t@.len())[q] == s@[i + q]);
                assert(s@.subrange(i as int, i + t@.len()) =~= t@);
            }
            return true;
        }
        proof {
            if s@.subrange(i as int, i + t@.len()) == t@ {
                assert(forall|q: int|
                    0 <= q < m ==> #[trigger] s@[i + q] == s@.subrange(i as int, i + t@.len())[q]);
                assert(false);
            }
        }
        i += 1;
    }
    proof {
        if has_substring(s@, t@) {
            let w = choose|w: int|
                0 <= w <= s@.len() - t@.len() && #[trigger] s@.subrange(w, w + t@.len()) == t@;
        }
    }
    false
}

/// Whether a mount point belongs to container-runtime internals and is
/// skipped by the disk gauges.
pub fn is_container_mount(mount: &str) -> (r: bool)
    ensures
        r == (has_substring(mount@, "docker"@) || has_substring(mount@, "containerd"@)
            || has_substring(mount@, "kubelet"@)),
{
    contains_substring(mount, "docker") || contains_substring(mount, "containerd")
        || contains_substring(mount, "kubelet")
}

/// The decimal text of a number.
pub open spec fn dec_digits(n: int) -> Seq<char>
    decreases n,
{
    if n < 0 {
        Seq::empty()
    } else if n < 10 {
        seq![digit_char(n)]
    } else {
        dec_digits(n / 10).push(digit_char(n % 10))
    }
}

/// The character of one decimal digit.
pub open spec fn digit_char(d: int) -> char {
    if d == 0 {
        '0'
    } else if d == 1 {
        '1'
    } else if d == 2 {
        '2'
    } else if d == 3 {
        '3'
    } else if d == 4 {
        '4'
    } else if d == 5 {
        '5'
    } else if d == 6 {
        '6'
    } else if d == 7 {
        '7'
    } else if d == 8 {
        '8'
    } else {
        '9'
    }
}

/// One decimal digit as text.
fn digit_str(d: u64) -> (r: &'static str)
    requires
        d < 10,
    ensures
        r@ == seq![digit_char(d as int)],
{
    let r = if d == 0 {
        "0"
    } else if d == 1 {
        "1"
    } else if d == 2 {
        "2"
    } else if d == 3 {
        "3"
    } else if d == 4 {
        "4"
    } else if d == 5 {
        "5"
    } else if d == 6 {
        "6"
    } else if d == 7 {
        "7"
    } else if d == 8 {
        "8"
    } else {
        "9"
    };
    proof {
        reveal_strlit("0");
        reveal_strlit("1");
        reveal_strlit("2");
        reveal_strlit("3");
        reveal_strlit("4");
        reveal_strlit("5");
        reveal_strlit("6");
        reveal_strlit("7");
        reveal_strlit("8");
        reveal_strlit("9");
        assert(r@ =~= seq![digit_char(d as int)]);
    }
    r
}

/// The decimal text of a number, executable form.
pub fn decimal_string(n: u64) -> (r: String)
    ensures
        r@ == dec_digits(n as int),
    decreases n,
{
    if n < 10 {
        String::from_str(digit_str(n))
    } else {
        let mut r = decimal_string(n / 10);
        r.append(digit_str(n % 10));
        proof {
            assert(r@ =~= dec_digits(n as int));
        }
        r
    }
}

/// The gauge label of one processor core.
pub fn cpu_core_label(index: u64) -> (r: String)
    ensures
        r@ == "cpu_"@ + dec_digits(index as int),
{
    let mut r = String::from_str("cpu_");
    let d = decimal_string(index);
    r.append(d.as_str());
    r
}

/// A pid text: an optional `+`, then digits.
pub open spec fn pid_digits(s: Seq<char>) -> Seq<char> {
    if s.len() > 0 && s[0] == '+' {
        s.drop_first()
    } else {
        s
    }
}

/// The numeric value of a digit text.
pub open spec fn digits_value(s: Seq<char>) -> int
    decreases s.len(),
{
    if s.len() == 0 {
        0
    } else {
        digits_value(s.drop_last()) * 10 + digit_value(s.last())
    }
}

/// The value of one digit character.
pub open spec fn digit_value(c: char) -> int {
    if c == '0' {
        0
    } else if c == '1' {
        1
    } else if c == '2' {
        2
    } else if c == '3' {
        3
    } else if c == '4' {
        4
    } else if c == '5' {
        5
    } else if c == '6' {
        6
    } else if c == '7' {
        7
    } else if c == '8' {
        8
    } else {
        9
    }
}

/// Whether a text reads as a pid that fits the range.
pub open spec fn is_pid_text(s: Seq<char>) -> bool {
    &&& pid_digits(s).len() >= 1
    &&& all_digits(pid_digits(s))
    &&& digits_value(pid_digits(s)) <= u64::MAX
}

/// A longer digit text never has a smaller value.
proof fn lemma_digits_value_monotone(s: Seq<char>, i: int)
    requires
        0 <= i <= s.len(),
        all_digits(s),
    ensures
        digits_value(s.take(i)) <= digits_value(s),
        digits_value(s) >= 0,
    decreases s.len(),
{
    if s.len() == 0 {
        assert(s.take(i) =~= s);
    } else {
        lemma_digits_value_monotone(s.drop_last(), if i <= s.len() - 1 {
            i
        } else {
            s.len() - 1
        });
        assert(all_digits(s.drop_last()));
        assert(digit_value(s.last()) >= 0);
        if i <= s.len() - 1 {
            assert(s.drop_last().take(i) =~= s.take(i));
            assert(digits_value(s) >= digits_value(s.drop_last()));
        } else {
            assert(s.take(i) =~= s);
        }
    }
}

/// Read a pid text as a number: the digits after an optional `+`, when they
/// fit the range.
pub fn parse_pid(s: &str) -> (r: Option<u64>)
    ensures
        r is Some <==> is_pid_text(s@),
        r matches Some(v) ==> v == digits_value(pid_digits(s@)),
{
    let n = s.unicode_len();
    let mut start: usize = 0;
    if n > 0 {
        if s.get_char(0) == '+' {
            start = 1;
        }
    }
    let ghost d = pid_digits(s@);
    proof {
        assert(d =~= s@.subrange(start as int, n as int));
    }
    if start == n {
        proof {
            assert(d.len() == 0);
        }
        return None;
    }
    let mut acc: u64 = 0;
    let mut i: usize = start;
    while i < n
        invariant
            start <= i <= n,
            n == s@.len(),
            start < n,
            d == pid_digits(s@),
            d =~= s@.subrange(start as int, n as int),
            all_digits(d.take(i - start)),
            acc == digits_value(d.take(i - start)),
        decreases n - i,
    {
        let c = s.get_char(i);
        if !('0' <= c && c <= '9') {
            proof {
                assert(d[i - start] == s@[i as int]);
                assert(!is_digit(d[i - start]));
            }
            return None;
        }
        let dv: u64 = if c == '0' {
            0
        } else if c == '1' {
            1
        } else if c == '2' {
            2
        } else if c == '3' {
            3
        } else if c == '4' {
            4
        } else if c == '5' {
            5
        } else if c == '6' {
            6
        } else if c == '7' {
            7
        } else if c == '8' {
            8
        } else {
            9
        };
        proof {
            assert(dv == digit_value(s@[i as int]));
            assert(d.take(i - start + 1).drop_last() =~= d.take(i - start));
            assert(d.take(i - start + 1).last() == s@[i as int]);
        }
        if acc > u64::MAX / 10 || (acc == u64::MAX / 10 && dv > u64::MAX % 10) {
            proof {
                assert(digits_value(d.take(i - start + 1)) > u64::MAX);
                if is_pid_text(s@) {
                    lemma_digits_value_monotone(d, i - start + 1);
                    assert(false);
                }
            }
            return None;
        }
        acc = acc * 10 + dv;
        i += 1;
    }
    proof {
        assert(d.take(n - start) =~= d);
    }
    Some(acc)
}

} // verus!
