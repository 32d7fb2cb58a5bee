//! Per-host scheduling decisions: connection-target resolution, remote
//! capacity parsing, worker concurrency, and the fail-fast pool check.
//!
//! Connecting, staging and executing are transport work and stay with the
//! caller; every decision about their plain-valued inputs and outcomes is
//! made here.

use vstd::prelude::*;
use vstd::string::*;
use crate::decimal::{all_digits, digit_of, digit_val, is_digit_char, parse_digits,
    lemma_parse_digits_prefix_monotone};

verus! {

/// Process-wide connection defaults: the login identity used for hosts
/// without an explicit override.
pub struct NodeCommon {
    pub username: String,
}

impl NodeCommon {
    /// Takes the invoking user's name where one is known, `root` otherwise.
    pub fn new(user: Option<String>) -> (r: NodeCommon)
        ensures
            r.username@ == match user {
                Some(u) => u@,
                None => "root"@,
            },
    {
        match user {
            Some(u) => NodeCommon { username: u },
            None => NodeCommon { username: String::from_str("root") },
        }
    }
}

/// One connected remote host as the dispatcher sees it: its configured
/// identifier and the thread capacity it reported.
pub struct Node {
    pub hostname: String,
    pub threads: usize,
}

/// Host-specific overrides found for one configured host identifier, each
/// field absent where the lookup gave none.
pub struct HostOverrides {
    pub host_name: Option<String>,
    pub port: Option<String>,
    pub user: Option<String>,
}

/// Where and as whom to connect for one configured host.
pub struct ConnectTarget {
    pub host: String,
    pub port: u16,
    pub user: String,
}

/// The port a port-override string denotes: its decimal value when it is a
/// well-formed 16-bit number (an optional `+` sign, then digits), the
/// default port 22 on anything else.
pub open spec fn port_spec(s: Seq<char>) -> nat {
    let body = if s.len() > 0 && s[0] == '+' {
        s.drop_first()
    } else {
        s
    };
    if body.len() > 0 && all_digits(body) && parse_digits(body) <= 65535 {
        parse_digits(body)
    } else {
        22
    }
}

/// Reads a port override, falling back to the default port 22 on anything
/// that is not a well-formed 16-bit number.
pub fn parse_port_or_default(s: &str) -> (r: u16)
    ensures
        r as nat == port_spec(s@),
{
    let n = s.unicode_len();
    let start: usize = if n > 0 && s.get_char(0) == '+' {
        1
    } else {
        0
    };
    let ghost body = if s@.len() > 0 && s@[0] == '+' {
        s@.drop_first()
    } else {
        s@
    };
    proof {
        assert(body.len() == n - start);
        assert(forall|k: int| 0 <= k < body.len() ==> body[k] == s@[k + start]);
    }
    if start == n {
        return 22;
    }
    let mut v: u64 = 0;
    let mut i: usize = start;
    while i < n
        invariant
            start <= i <= n,
            n == s@.len(),
            start < n,
            body.len() == n - start,
            forall|k: int| 0 <= k < body.len() ==> body[k] == s@[k + start],
            body == (if s@.len() > 0 && s@[0] == '+' {
                s@.drop_first()
            } else {
                s@
            }),
            all_digits(body.take(i - start)),
            v as nat == parse_digits(body.take(i - start)),
            v <= 65535,
        decreases n - i,
    {
        let c = s.get_char(i);
        proof {
            assert(body[i - start] == c);
        }
        match digit_of(c) {
            None => {
                proof {
                    assert(!is_digit_char(body[i - start]));
                    assert(!all_digits(body));
                }
                return 22;
            },
            Some(d) => {
                let next = v * 10 + (d as u64);
                proof {
                    assert(body.take(i - start + 1).drop_last() =~= body.take(i - start));
                    assert(body.take(i - start + 1).last() == body[i - start]);
                    assert(digit_val(c) == d as nat);
                    assert(parse_digits(body.take(i - start + 1)) == (v as nat) * 10 + d as nat);
                }
                if next > 65535 {
                    proof {
                        lemma_parse_digits_prefix_monotone(body, i - start + 1, body.len() as int);
                        assert(body.take(body.len() as int) =~= body);
                        assert(parse_digits(body) > 65535);
                    }
                    return 22;
                }
                v = next;
                proof {
                    assert(all_digits(body.take(i - start + 1)));
                }
            },
        }
        i += 1;
    }
    proof {
        assert(body.take(n - start) =~= body);
        assert(port_spec(s@) == v as nat);
    }
    v as u16
}

/// Resolves the connection target for one configured host identifier:
/// every absent override falls back to the identifier itself, the default
/// port 22, and the process-wide login identity.
pub fn resolve_target(
    common: &NodeCommon,
    hostname: &String,
    overrides: &Option<HostOverrides>,
) -> (t: ConnectTarget)
    ensures
        match overrides {
            None => {
                &&& t.host@ == hostname@
                &&& t.port == 22
                &&& t.user@ == common.username@
            },
            Some(o) => {
                &&& t.host@ == match o.host_name {
                    Some(h) => h@,
                    None => hostname@,
                }
                &&& t.port as nat == match o.port {
                    Some(p) => port_spec(p@),
                    None => 22nat,
                }
                &&& t.user@ == match o.user {
                    Some(u) => u@,
                    None => common.username@,
                }
            },
        },
{
    match overrides {
        None => ConnectTarget {
            host: hostname.clone(),
            port: 22,
            user: common.username.clone(),
        },
        Some(o) => {
            let host = match &o.host_name {
                Some(h) => h.clone(),
                None => hostname.clone(),
            };
            let port = match &o.port {
                Some(p) => parse_port_or_default(p.as_str()),
                None => 22,
            };
            let user = match &o.user {
                Some(u) => u.clone(),
                None => common.username.clone(),
            };
            ConnectTarget { host, port, user }
        },
    }
}

/// Whether a character counts as surrounding whitespace in a capacity
/// report.
pub open spec fn is_space(c: char) -> bool {
    c == ' ' || c == '\n' || c == '\t' || c == '\r'
}

/// `s` without its leading whitespace.
pub open spec fn trim_front(s: Seq<char>) -> Seq<char>
    decreases s.len(),
{
    if s.len() > 0 && is_space(s[0]) {
        trim_front(s.drop_first())
    } else {
        s
    }
}

/// `s` without its trailing whitespace.
pub open spec fn trim_back(s: Seq<char>) -> Seq<char>
    decreases s.len(),
{
    if s.len() > 0 && is_space(s.last()) {
        trim_back(s.drop_last())
    } else {
        s
    }
}

/// `s` without surrounding whitespace.
pub open spec fn trimmed(s: Seq<char>) -> Seq<char> {
    trim_back(trim_front(s))
}

/// The capacity a remote report denotes: the decimal value of the report
/// once surrounding whitespace is dropped, or nothing where the remainder
/// is empty, not all digits, or too large for the machine.
pub open spec fn spec_parse_capacity(s: Seq<char>) -> Option<nat> {
    let t = trimmed(s);
    if t.len() > 0 && all_digits(t) && parse_digits(t) <= usize::MAX {
        Some(parse_digits(t))
    } else {
        None
    }
}

/// Whether a character counts as surrounding whitespace in a capacity
/// report.
fn is_space_char(c: char) -> (r: bool)
    ensures
        r == is_space(c),
{
    c == ' ' || c == '\n' || c == '\t' || c == '\r'
}

/// The index where the leading whitespace of `s` ends.
fn leading_ws(s: &str) -> (start: usize)
    ensures
        start <= s@.len(),
        trim_front(s@) == s@.skip(start as int),
{
    let n = s.unicode_len();
    proof {
        assert(s@.skip(0) =~= s@);
    }
    let mut start: usize = 0;
    while start < n
        invariant
            0 <= start <= n,
            n == s@.len(),
            trim_front(s@) == trim_front(s@.skip(start as int)),
        decreases n - start,
    {
        let c = s.get_char(start);
        proof {
            assert(s@.skip(start as int)[0] == s@[start as int]);
        }
        if !is_space_char(c) {
            return start;
        }
        proof {
            assert(s@.skip(start as int).drop_first() =~= s@.skip(start as int + 1));
        }
        start += 1;
    }
    proof {
        assert(s@.skip(start as int) =~= Seq::<char>::empty());
    }
    start
}

/// The index where the trailing whitespace of `s` after `start` begins.
fn trailing_ws(s: &str, start: usize) -> (end: usize)
    requires
        start <= s@.len(),
    ensures
        start <= end <= s@.len(),
        trim_back(s@.skip(start as int)) == s@.skip(start as int).take(end - start),
{
    let ghost tf = s@.skip(start as int);
    let n = s.unicode_len();
    proof {
        assert(tf.take(n - start) =~= tf);
    }
    let mut end: usize = n;
    while end > start
        invariant
            start <= end <= n,
            n == s@.len(),
            tf == s@.skip(start as int),
            trim_back(tf) == trim_back(tf.take(end - start)),
        decreases end,
    {
        let c = s.get_char(end - 1);
        proof {
            assert(tf.take(end - start).last() == s@[end - 1]);
        }
        if !is_space_char(c) {
            proof {
                assert(trim_back(tf.take(end - start)) == tf.take(end - start));
            }
            return end;
        }
        proof {
            assert(tf.take(end - start).drop_last() =~= tf.take(end - 1 - start));
        }
        end -= 1;
    }
    proof {
        assert(tf.take(end - start) =~= Seq::<char>::empty());
    }
    end
}

/// Reads the thread capacity a remote host reported, typically a digit
/// string with a trailing newline.  Nothing comes back on a malformed
/// report; the caller treats that host as unusable, as it cannot size its
/// worker pool.
pub fn parse_capacity(s: &str) -> (r: Option<usize>)
    ensures
        r is Some <==> spec_parse_capacity(s@) is Some,
        r is Some ==> r->0 as nat == spec_parse_capacity(s@)->0,
{
    let n = s.unicode_len();
    let start = leading_ws(s);
    let ghost tf = s@.skip(start as int);
    let end = trailing_ws(s, start);
    proof {
        assert(trimmed(s@) == tf.take(end - start));
    }
    let ghost t = tf.take(end - start);
    if end == start {
        return None;
    }
    let mut v: usize = 0;
    let mut i: usize = start;
    while i < end
        invariant
            start <= i <= end <= n,
            n == s@.len(),
            start < end,
            tf == s@.skip(start as int),
            t == tf.take(end - start),
            trimmed(s@) == t,
            t.len() == end - start,
            forall|k: int| 0 <= k < t.len() ==> t[k] == s@[k + start],
            all_digits(t.take(i - start)),
            v as nat == parse_digits(t.take(i - start)),
        decreases end - i,
    {
        let c = s.get_char(i);
        proof {
            assert(t[i - start] == c);
        }
        match digit_of(c) {
            None => {
                proof {
                    assert(!is_digit_char(t[i - start]));
                    assert(!all_digits(t));
                }
                return None;
            },
            Some(d) => {
                proof {
                    assert(t.take(i - start + 1).drop_last() =~= t.take(i - start));
                    assert(t.take(i - start + 1).last() == t[i - start]);
                    assert(digit_val(c) == d as nat);
                }
                if v > (usize::MAX - (d as usize)) / 10 {
                    proof {
                        assert((v as nat) * 10 + (d as nat) > usize::MAX) by (nonlinear_arith)
                            requires
                                v as nat > (usize::MAX as nat - d as nat) / 10,
                                d < 10,
                        ;
                        assert(parse_digits(t.take(i - start + 1)) > usize::MAX);
                        lemma_parse_digits_prefix_monotone(t, i - start + 1, t.len() as int);
                        assert(t.take(t.len() as int) =~= t);
                        assert(parse_digits(t) > usize::MAX);
                    }
                    return None;
                }
                proof {
                    assert(v as nat <= (usize::MAX as nat - d as nat) / 10);
                    assert((v as nat) * 10 + (d as nat) <= usize::MAX) by (nonlinear_arith)
                        requires
                            v as nat <= (usize::MAX as nat - d as nat) / 10,
                            d < 10,
                    ;
                }
                v = v * 10 + (d as usize);
                proof {
                    assert(all_digits(t.take(i - start + 1)));
                }
            },
        }
        i += 1;
    }
    proof {
        assert(t.take(end - start) =~= t);
    }
    Some(v)
}

/// How many permutations one node runs at once: its capacity divided by
/// the per-task thread need, never below one, and exactly one when the
/// per-task need is zero (capacity is then ignored).
pub open spec fn spec_concurrency(threads: nat, threads_per_task: nat) -> nat {
    if threads_per_task == 0 {
        1
    } else if threads / threads_per_task == 0 {
        1
    } else {
        threads / threads_per_task
    }
}

/// Computes one node's worker concurrency from its reported capacity.
pub fn concurrency(threads: usize, threads_per_task: usize) -> (r: usize)
    ensures
        r as nat == spec_concurrency(threads as nat, threads_per_task as nat),
        threads_per_task == 0 ==> r == 1,
        threads_per_task > 0 ==> r as int == vstd::math::max(
            1int,
            threads as int / threads_per_task as int,
        ),
        r >= 1,
{
    if threads_per_task == 0 {
        1
    } else {
        let c = threads / threads_per_task;
        if c == 0 {
            1
        } else {
            c
        }
    }
}

/// How many workers a node contributes: none at all when its staging
/// failed (the node is skipped, the run goes on without it), its full
/// concurrency otherwise.
pub fn node_worker_count(staging_ok: bool, threads: usize, threads_per_task: usize) -> (r: usize)
    ensures
        !staging_ok ==> r == 0,
        staging_ok ==> r as nat == spec_concurrency(threads as nat, threads_per_task as nat),
{
    if staging_ok {
        concurrency(threads, threads_per_task)
    } else {
        0
    }
}

/// The fail-fast pool check: the run proceeds only when every configured
/// host connected; one failure aborts it before any staging or dispatch.
pub fn pool_ready(connected: &Vec<bool>) -> (r: bool)
    ensures
        r <==> (forall|i: int| 0 <= i < connected@.len() ==> connected@[i]),
{
    let mut i: usize = 0;
    while i < connected.len()
        invariant
            0 <= i <= connected@.len(),
            forall|k: int| 0 <= k < i ==> connected@[k],
        decreases connected@.len() - i,
    {
        if !connected[i] {
            return false;
        }
        i += 1;
    }
    true
}

} // verus!
