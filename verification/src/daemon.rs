//! The daemon's address file `daemon.addr`: lines `pid=<N>` and
//! `addr=<endpoint>`.
use crate::policy::{is_white, is_white_exec};
use crate::text::{chars_of, parse_u64, parse_u64_spec, string_from_chars};
use vstd::prelude::*;
use vstd::string::*;

verus! {

/// The text without leading white space.
pub open spec fn trim_start(s: Seq<char>) -> Seq<char>
    decreases s.len(),
{
    if s.len() > 0 && is_white(s[0]) {
        trim_start(s.drop_first())
    } else {
        s
    }
}

/// The text without trailing white space.
pub open spec fn trim_end(s: Seq<char>) -> Seq<char>
    decreases s.len(),
{
    if s.len() > 0 && is_white(s.last()) {
        trim_end(s.drop_last())
    } else {
        s
    }
}

/// The text without white space at either end (`str::trim`).
pub open spec fn trimmed(s: Seq<char>) -> Seq<char> {
    trim_end(trim_start(s))
}

fn char_vec(s: &[char]) -> (r: Vec<char>)
    ensures
        r@ == s@,
{
    let mut r: Vec<char> = Vec::new();
    let mut i: usize = 0;
    while i < s.len()
        invariant
            i <= s@.len(),
            r@ == s@.take(i as int),
        decreases s@.len() - i,
    {
        r.push(s[i]);
        proof {
            assert(s@.take(i as int + 1) =~= s@.take(i as int).push(s@[i as int]));
        }
        i = i + 1;
    }
    proof {
        assert(s@.take(i as int) =~= s@);
    }
    r
}

/// Removes white space from both ends.
pub fn trim(s: &[char]) -> (r: Vec<char>)
    ensures
        r@ == trimmed(s@),
{
    let mut a: usize = 0;
    proof {
        assert(s@.skip(0) =~= s@);
    }
    while a < s.len() && is_white_exec(s[a])
        invariant
            a <= s@.len(),
            trim_start(s@.skip(a as int)) == trim_start(s@),
        decreases s@.len() - a,
    {
        proof {
            assert(s@.skip(a as int).drop_first() =~= s@.skip(a as int + 1));
        }
        a = a + 1;
    }
    proof {
        assert(trim_start(s@.skip(a as int)) == s@.skip(a as int));
    }
    let mut b: usize = s.len();
    while b > a && is_white_exec(s[b - 1])
        invariant
            a <= b <= s@.len(),
            trim_end(s@.subrange(a as int, b as int)) == trimmed(s@),
            trim_start(s@) == s@.skip(a as int),
        decreases b,
    {
        proof {
            assert(s@.subrange(a as int, b as int).drop_last() =~= s@.subrange(
                a as int,
                b as int - 1,
            ));
        }
        b = b - 1;
    }
    proof {
        assert(s@.skip(a as int) =~= s@.subrange(a as int, s@.len() as int));
    }
    let r = char_vec(vstd::slice::slice_subrange(s, a, b));
    r
}

/// Where the line starting at `i` ends: the next `\n`, or the end.
pub open spec fn line_end(s: Seq<char>, i: int) -> int
    decreases s.len() - i,
{
    if i >= s.len() || s[i] == '\n' {
        i
    } else {
        line_end(s, i + 1)
    }
}

/// The line starting at `i`, without its line ending (`\n` or `\r\n`).
pub open spec fn line_at(s: Seq<char>, i: int) -> Seq<char> {
    let j = line_end(s, i);
    let raw = s.subrange(i, j);
    if j < s.len() && raw.len() > 0 && raw.last() == '\r' {
        raw.drop_last()
    } else {
        raw
    }
}

/// What follows `prefix` on the first line (from position `i`, as
/// `str::lines` splits them) that starts with it.
pub open spec fn first_prefixed(s: Seq<char>, i: int, prefix: Seq<char>) -> Option<Seq<char>>
    decreases s.len() - i,
{
    if i < 0 || i >= s.len() {
        None
    } else {
        let line = line_at(s, i);
        if prefix.len() <= line.len() && line.take(prefix.len() as int) == prefix {
            Some(line.skip(prefix.len() as int))
        } else if line_end(s, i) >= s.len() {
            None
        } else {
            proof {
                lemma_line_end_range(s, i);
            }
            first_prefixed(s, line_end(s, i) + 1, prefix)
        }
    }
}

pub proof fn lemma_line_end_range(s: Seq<char>, i: int)
    requires
        0 <= i <= s.len(),
    ensures
        i <= line_end(s, i) <= s.len(),
        line_end(s, i) < s.len() ==> s[line_end(s, i)] == '\n',
        forall|k: int| i <= k < line_end(s, i) ==> s[k] != '\n',
    decreases s.len() - i,
{
    if i < s.len() && s[i] != '\n' {
        lemma_line_end_range(s, i + 1);
    }
}

/// The value of the first line that starts with `prefix`.
fn find_prefixed(cs: &Vec<char>, prefix: &str) -> (r: Option<Vec<char>>)
    ensures
        match first_prefixed(cs@, 0, prefix@) {
            Some(v) => r matches Some(x) && x@ == v,
            None => r is None,
        },
{
    let pcs = chars_of(prefix);
    let mut i: usize = 0;
    while i < cs.len()
        invariant
            pcs@ == prefix@,
            i <= cs@.len(),
            first_prefixed(cs@, i as int, prefix@) == first_prefixed(cs@, 0, prefix@),
        decreases cs@.len() - i,
    {
        let mut j: usize = i;
        while j < cs.len() && cs[j] != '\n'
            invariant
                i <= j <= cs@.len(),
                line_end(cs@, j as int) == line_end(cs@, i as int),
            decreases cs@.len() - j,
        {
            j = j + 1;
        }
        proof {
            assert(line_end(cs@, j as int) == j);
        }
        let mut end = j;
        if j < cs.len() && end > i && cs[end - 1] == '\r' {
            end = end - 1;
        }
        let line = vstd::slice::slice_subrange(cs.as_slice(), i, end);
        proof {
            assert(line@ =~= line_at(cs@, i as int));
        }
        if pcs.len() <= line.len() {
            let mut k: usize = 0;
            let mut same = true;
            proof {
                assert(line@.take(0) =~= pcs@.take(0));
            }
            while k < pcs.len()
                invariant
                    pcs@.len() <= line@.len(),
                    k <= pcs@.len(),
                    same <==> line@.take(k as int) == pcs@.take(k as int),
                decreases pcs@.len() - k,
            {
                proof {
                    assert(line@.take(k as int + 1) =~= line@.take(k as int).push(line@[k as int]));
                    assert(pcs@.take(k as int + 1) =~= pcs@.take(k as int).push(pcs@[k as int]));
                    if line@.take(k as int + 1) == pcs@.take(k as int + 1) {
                        assert(line@.take(k as int + 1)[k as int] == pcs@.take(k as int + 1)[k as int]);
                        assert(line@.take(k as int) =~= line@.take(k as int + 1).drop_last());
                        assert(pcs@.take(k as int) =~= pcs@.take(k as int + 1).drop_last());
                    }
                }
                if line[k] != pcs[k] {
                    same = false;
                }
                k = k + 1;
            }
            proof {
                assert(pcs@.take(pcs@.len() as int) =~= pcs@);
            }
            if same {
                let v = char_vec(vstd::slice::slice_subrange(line, pcs.len(), line.len()));
                proof {
                    assert(v@ =~= line@.skip(pcs@.len() as int));
                }
                return Some(v);
            }
        }
        if j >= cs.len() {
            proof {
                assert(first_prefixed(cs@, j as int + 1, prefix@) is None);
            }
            return None;
        }
        i = j + 1;
    }
    None
}

/// The process id on the first `pid=` line, trimmed and read as a `u32`
/// (`None` when there is no such line or it is not a number).
pub open spec fn pid_of(content: Seq<char>) -> Option<u32> {
    match first_prefixed(content, 0, "pid="@) {
        Some(v) => match parse_u64_spec(trimmed(v)) {
            Some(n) => if n <= u32::MAX {
                Some(n as u32)
            } else {
                None
            },
            None => None,
        },
        None => None,
    }
}

/// Reads `pid=<N>` from the address file.
pub fn parse_pid(content: &str) -> (r: Option<u32>)
    ensures
        r == pid_of(content@),
{
    proof {
        reveal_strlit("pid=");
    }
    let cs = chars_of(content);
    match find_prefixed(&cs, "pid=") {
        None => None,
        Some(v) => {
            let t = string_from_chars(trim(v.as_slice()).as_slice());
            match parse_u64(t.as_str()) {
                Some(n) => if n <= 0xffff_ffffu64 {
                    Some(n as u32)
                } else {
                    None
                },
                None => None,
            }
        },
    }
}

/// Reads `addr=<endpoint>` (trimmed) from the address file.
pub fn parse_addr(content: &str) -> (r: Option<String>)
    ensures
        match first_prefixed(content@, 0, "addr="@) {
            Some(v) => r matches Some(a) && a@ == trimmed(v),
            None => r is None,
        },
{
    let cs = chars_of(content);
    match find_prefixed(&cs, "addr=") {
        None => None,
        Some(v) => Some(string_from_chars(trim(v.as_slice()).as_slice())),
    }
}

} // verus!
