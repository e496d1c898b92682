//! Parsing of the peeked request head.
//!
//! The engine peeks up to `BUFFER_SIZE` bytes from the client without
//! consuming them, checks the literal `GET` prefix, and extracts the value
//! of the first line that begins (after leading whitespace) with `host:`,
//! searched case-insensitively by lowercasing the peeked bytes first.
//! `host_value` is the mathematical form of that search: it walks the
//! lines (split at line feeds, a trailing carriage return stripped) and
//! yields the trimmed value of the first host line.

use vstd::prelude::*;

use crate::bytes::{is_first_at, is_ws, is_ws_exec, lower};
use crate::error::ConnError;

verus! {

/// The size of the scratch buffer, and the window within which the request
/// head must fit.
pub const BUFFER_SIZE: usize = 4096;

/// The request begins with the literal `GET` and holds more than those
/// three bytes.
pub open spec fn is_http_get(s: Seq<u8>) -> bool {
    s.len() > 3 && s[0] == 71 && s[1] == 69 && s[2] == 84
}

/// Does the peeked data begin with an HTTP `GET` request line?
pub fn check_http(data: &[u8]) -> (r: bool)
    ensures
        r == is_http_get(data@),
{
    data.len() > 3 && data[0] == 71 && data[1] == 69 && data[2] == 84
}

/// The byte string `host:`.
pub open spec fn host_prefix() -> Seq<u8> {
    Seq::new(
        5,
        |i: int|
            if i == 0 {
                104u8
            } else if i == 1 {
                111u8
            } else if i == 2 {
                115u8
            } else if i == 3 {
                116u8
            } else {
                58u8
            },
    )
}

/// The sequence without its leading whitespace.
pub open spec fn trim_start_rec(s: Seq<u8>) -> Seq<u8>
    decreases s.len(),
{
    if s.len() > 0 && is_ws(s[0]) {
        trim_start_rec(s.subrange(1, s.len() as int))
    } else {
        s
    }
}

/// The sequence without its trailing whitespace.
pub open spec fn trim_end_rec(s: Seq<u8>) -> Seq<u8>
    decreases s.len(),
{
    if s.len() > 0 && is_ws(s[s.len() - 1]) {
        trim_end_rec(s.subrange(0, s.len() - 1))
    } else {
        s
    }
}

/// The sequence without leading and trailing whitespace.
pub open spec fn trim_spec(s: Seq<u8>) -> Seq<u8> {
    trim_end_rec(trim_start_rec(s))
}

/// A line as yielded by line splitting: a trailing carriage return is
/// dropped.
pub open spec fn strip_cr(s: Seq<u8>) -> Seq<u8> {
    if s.len() > 0 && s[s.len() - 1] == 13 {
        s.subrange(0, s.len() - 1)
    } else {
        s
    }
}

/// The host value carried by one line, if the line (after leading
/// whitespace) begins with `host:`: the rest of the line, trimmed.
pub open spec fn line_host(line: Seq<u8>) -> Option<Seq<u8>> {
    let t = trim_start_rec(line);
    if t.len() >= 5 && t.subrange(0, 5) == host_prefix() {
        Some(trim_spec(t.subrange(5, t.len() as int)))
    } else {
        None
    }
}

/// The value of the first host line of the request head, walking the lines
/// split at line feeds.
pub open spec fn host_value(s: Seq<u8>) -> Option<Seq<u8>>
    decreases s.len(),
{
    if exists|i: int| is_first_at(s, 0, 10, i) {
        let i = choose|i: int| is_first_at(s, 0, 10, i);
        match line_host(strip_cr(s.subrange(0, i))) {
            Some(v) => Some(v),
            None => host_value(s.subrange(i + 1, s.len() as int)),
        }
    } else {
        line_host(strip_cr(s))
    }
}

/// If the first `k` bytes are whitespace and the byte at `k` (when there is
/// one) is not, trimming the start drops exactly those `k` bytes.
proof fn lemma_trim_start(s: Seq<u8>, k: int)
    requires
        0 <= k <= s.len(),
        forall|j: int| 0 <= j < k ==> is_ws(s[j]),
        k < s.len() ==> !is_ws(s[k]),
    ensures
        trim_start_rec(s) == s.subrange(k, s.len() as int),
    decreases k,
{
    if k == 0 {
        assert(s.subrange(0, s.len() as int) =~= s);
    } else {
        let t = s.subrange(1, s.len() as int);
        assert(forall|j: int| 0 <= j < k - 1 ==> is_ws(t[j]));
        lemma_trim_start(t, k - 1);
        assert(t.subrange(k - 1, t.len() as int) =~= s.subrange(k, s.len() as int));
    }
}

/// If the bytes from `k` on are whitespace and the byte before `k` (when
/// there is one) is not, trimming the end keeps exactly the first `k`.
proof fn lemma_trim_end(s: Seq<u8>, k: int)
    requires
        0 <= k <= s.len(),
        forall|j: int| k <= j < s.len() ==> is_ws(s[j]),
        k > 0 ==> !is_ws(s[k - 1]),
    ensures
        trim_end_rec(s) == s.subrange(0, k),
    decreases s.len() - k,
{
    if k == s.len() {
        if s.len() > 0 && is_ws(s[s.len() - 1]) {
            let t = s.subrange(0, s.len() - 1);
            lemma_trim_end(t, k - 1);
            assert(!is_ws(s[k - 1]));
            assert(false);
        } else {
            assert(s.subrange(0, k) =~= s);
        }
    } else {
        assert(is_ws(s[s.len() - 1]));
        let t = s.subrange(0, s.len() - 1);
        assert(forall|j: int| k <= j < t.len() ==> is_ws(t[j]));
        lemma_trim_end(t, k);
        assert(t.subrange(0, k) =~= s.subrange(0, k));
    }
}

/// First occurrence carries over between a sequence and its suffixes.
proof fn lemma_first_at_skip(s: Seq<u8>, from: int, b: u8, i: int)
    requires
        0 <= from <= s.len(),
        is_first_at(s, from, b, i),
    ensures
        is_first_at(s.subrange(from, s.len() as int), 0, b, i - from),
{
    let t = s.subrange(from, s.len() as int);
    assert forall|j: int| 0 <= j < i - from implies t[j] != b by {
        assert(t[j] == s[j + from]);
    }
}

/// Parse one line of the (lowercased) head, the bytes `low[lo..hi]`:
/// the host value it carries, if any.
fn parse_line(low: &[u8], lo: usize, hi: usize) -> (r: Option<Vec<u8>>)
    requires
        lo <= hi <= low@.len(),
    ensures
        match r {
            Some(v) => line_host(low@.subrange(lo as int, hi as int)) == Some(v@),
            None => line_host(low@.subrange(lo as int, hi as int)) is None,
        },
        r matches Some(v) ==> (low@ == lower(low@) ==> v@ == lower(v@)),
{
    let ghost line = low@.subrange(lo as int, hi as int);
    let mut t: usize = lo;
    while t < hi && is_ws_exec(low[t])
        invariant
            lo <= t <= hi <= low@.len(),
            forall|j: int| lo <= j < t ==> is_ws(low@[j]),
        decreases hi - t,
    {
        t = t + 1;
    }
    proof {
        assert(forall|j: int| 0 <= j < t - lo ==> is_ws(line[j]));
        lemma_trim_start(line, t as int - lo);
        assert(trim_start_rec(line) =~= low@.subrange(t as int, hi as int));
    }
    let ghost tline = low@.subrange(t as int, hi as int);
    if hi - t >= 5 && low[t] == 104 && low[t + 1] == 111 && low[t + 2] == 115 && low[t + 3] == 116
        && low[t + 4] == 58 {
        proof {
            assert(tline.subrange(0, 5) =~= host_prefix());
        }
        let mut vlo: usize = t + 5;
        while vlo < hi && is_ws_exec(low[vlo])
            invariant
                t + 5 <= vlo <= hi <= low@.len(),
                forall|j: int| t + 5 <= j < vlo ==> is_ws(low@[j]),
            decreases hi - vlo,
        {
            vlo = vlo + 1;
        }
        let mut vhi: usize = hi;
        while vhi > vlo && is_ws_exec(low[vhi - 1])
            invariant
                vlo <= vhi <= hi <= low@.len(),
                forall|j: int| vhi <= j < hi ==> is_ws(low@[j]),
            decreases vhi,
        {
            vhi = vhi - 1;
        }
        proof {
            let value = tline.subrange(5, tline.len() as int);
            assert(value =~= low@.subrange(t as int + 5, hi as int));
            assert(forall|j: int| 0 <= j < vlo - (t + 5) ==> is_ws(value[j]));
            lemma_trim_start(value, vlo as int - (t as int + 5));
            let started = value.subrange(vlo as int - (t as int + 5), value.len() as int);
            assert(started =~= low@.subrange(vlo as int, hi as int));
            assert(forall|j: int| vhi - vlo <= j < started.len() ==> is_ws(started[j]));
            lemma_trim_end(started, vhi as int - vlo as int);
            assert(trim_spec(value) =~= low@.subrange(vlo as int, vhi as int));
        }
        let mut out: Vec<u8> = Vec::new();
        let mut k: usize = vlo;
        while k < vhi
            invariant
                vlo <= k <= vhi <= low@.len(),
                out@.len() == k - vlo,
                forall|j: int| 0 <= j < out@.len() ==> out@[j] == low@[vlo + j],
            decreases vhi - k,
        {
            out.push(low[k]);
            k = k + 1;
        }
        proof {
            assert(out@ =~= low@.subrange(vlo as int, vhi as int));
            assert(line_host(line) == Some(out@));
            if low@ == lower(low@) {
                assert forall|j: int| 0 <= j < out@.len() implies out@[j] == crate::bytes::lower_byte(
                    out@[j],
                ) by {
                    assert(low@[vlo + j] == lower(low@)[vlo + j]);
                }
                assert(out@ =~= lower(out@));
            }
        }
        Some(out)
    } else {
        proof {
            if tline.len() >= 5 {
                if low@[t as int] != 104 {
                    assert(tline.subrange(0, 5)[0] != host_prefix()[0]);
                } else if low@[t as int + 1] != 111 {
                    assert(tline.subrange(0, 5)[1] != host_prefix()[1]);
                } else if low@[t as int + 2] != 115 {
                    assert(tline.subrange(0, 5)[2] != host_prefix()[2]);
                } else if low@[t as int + 3] != 116 {
                    assert(tline.subrange(0, 5)[3] != host_prefix()[3]);
                } else {
                    assert(tline.subrange(0, 5)[4] != host_prefix()[4]);
                }
            }
            assert(line_host(line) is None);
        }
        None
    }
}

/// Find the value of the first host line in the (already lowercased) head.
pub fn find_host(low: &[u8]) -> (r: Option<Vec<u8>>)
    ensures
        match r {
            Some(v) => host_value(low@) == Some(v@),
            None => host_value(low@) is None,
        },
        r matches Some(v) ==> (low@ == lower(low@) ==> v@ == lower(v@)),
{
    let n: usize = low.len();
    let mut pos: usize = 0;
    proof {
        assert(low@.subrange(0, low@.len() as int) =~= low@);
    }
    loop
        invariant
            n == low@.len(),
            pos <= low@.len(),
            host_value(low@) == host_value(low@.subrange(pos as int, low@.len() as int)),
        decreases low@.len() - pos,
    {
        let ghost tail = low@.subrange(pos as int, low@.len() as int);
        let nl = crate::bytes::find_byte_from(low, pos, 10);
        let line_end0: usize = match nl {
            Some(i) => i,
            None => n,
        };
        let end: usize = if line_end0 > pos && low[line_end0 - 1] == 13 {
            line_end0 - 1
        } else {
            line_end0
        };
        proof {
            assert(strip_cr(low@.subrange(pos as int, line_end0 as int)) =~= low@.subrange(
                pos as int,
                end as int,
            ));
        }
        let parsed = parse_line(low, pos, end);
        match nl {
            Some(i) => {
                proof {
                    lemma_first_at_skip(low@, pos as int, 10, i as int);
                    let ich = choose|k: int| is_first_at(tail, 0, 10, k);
                    crate::bytes::lemma_first_at_unique(tail, 0, 10, ich, i as int - pos);
                    assert(tail.subrange(0, i as int - pos) =~= low@.subrange(
                        pos as int,
                        i as int,
                    ));
                    assert(tail.subrange(i as int - pos + 1, tail.len() as int) =~= low@.subrange(
                        i as int + 1,
                        low@.len() as int,
                    ));
                }
                match parsed {
                    Some(v) => {
                        proof {
                            assert(host_value(tail) == Some(v@));
                        }
                        return Some(v);
                    },
                    None => {
                        proof {
                            assert(host_value(tail) == host_value(
                                low@.subrange(i as int + 1, low@.len() as int),
                            ));
                            assert(i < low@.len());
                        }
                        pos = i + 1;
                    },
                }
            },
            None => {
                proof {
                    assert forall|k: int| !is_first_at(tail, 0, 10, k) by {
                        if 0 <= k < tail.len() {
                            assert(tail[k] == low@[k + pos]);
                        }
                    }
                    assert(host_value(tail) == line_host(strip_cr(tail)));
                    assert(tail =~= low@.subrange(pos as int, line_end0 as int));
                }
                return parsed;
            },
        }
    }
}

/// Extract the Host-header value from the raw peeked head: the head is
/// lowercased and searched; a head without a host line is a parse failure.
pub fn parse_host(data: &[u8]) -> (r: Result<Vec<u8>, ConnError>)
    ensures
        match r {
            Ok(v) => host_value(lower(data@)) == Some(v@) && v@ == lower(v@),
            Err(e) => e == ConnError::ParseError && host_value(lower(data@)) is None,
        },
{
    let low = crate::bytes::to_lower(data);
    proof {
        crate::bytes::lemma_lower_idempotent(data@);
    }
    match find_host(low.as_slice()) {
        Some(v) => Ok(v),
        None => Err(ConnError::ParseError),
    }
}

} // verus!
