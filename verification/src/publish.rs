//! The publisher: extracts the content identifier from the store's output.
//!
//! The store client is asked for quiet, short-form output: a single
//! identifier on standard output.  The identifier is taken whitespace-
//! trimmed; empty output and malformed UTF-8 are fatal publish-stage
//! errors.

use vstd::prelude::*;

verus! {

use vstd::string::StringExecFns;
use vstd::utf8::{valid_utf8, decode_utf8};
use crate::digest::utf8_to_string;
use crate::pipeline::{Stage, ErrorKind, StageError};

/// ASCII whitespace, as the store's line-oriented output uses it.
pub open spec fn is_ws(b: u8) -> bool {
    b == 32 || b == 9 || b == 10 || b == 13
}

/// The bytes with leading ASCII whitespace removed.
pub open spec fn trim_front(b: Seq<u8>) -> Seq<u8>
    decreases b.len(),
{
    if b.len() > 0 && is_ws(b[0]) {
        trim_front(b.drop_first())
    } else {
        b
    }
}

/// The bytes with trailing ASCII whitespace removed.
pub open spec fn trim_back(b: Seq<u8>) -> Seq<u8>
    decreases b.len(),
{
    if b.len() > 0 && is_ws(b.last()) {
        trim_back(b.drop_last())
    } else {
        b
    }
}

/// The bytes with both leading and trailing ASCII whitespace removed.
pub open spec fn trim_ws(b: Seq<u8>) -> Seq<u8> {
    trim_back(trim_front(b))
}

proof fn lemma_trim_front_skip(b: Seq<u8>, i: int)
    requires
        0 <= i <= b.len(),
        forall|k: int| 0 <= k < i ==> is_ws(b[k]),
    ensures
        trim_front(b) == trim_front(b.skip(i)),
    decreases i,
{
    if i == 0 {
        assert(b.skip(0) =~= b);
    } else {
        assert(is_ws(b[0]));
        assert(b.drop_first() =~= b.skip(1));
        assert forall|k: int| 0 <= k < i - 1 implies is_ws(#[trigger] b.skip(1)[k]) by {
            assert(b.skip(1)[k] == b[k + 1]);
        }
        lemma_trim_front_skip(b.skip(1), i - 1);
        assert(b.skip(1).skip(i - 1) =~= b.skip(i));
    }
}

proof fn lemma_trim_back_take(b: Seq<u8>, j: int)
    requires
        0 <= j <= b.len(),
        forall|k: int| j <= k < b.len() ==> is_ws(b[k]),
    ensures
        trim_back(b) == trim_back(b.take(j)),
    decreases b.len() - j,
{
    if j == b.len() {
        assert(b.take(j) =~= b);
    } else {
        assert(is_ws(b.last()));
        assert(b.drop_last() =~= b.take(b.len() - 1));
        assert forall|k: int| j <= k < b.len() - 1 implies is_ws(#[trigger] b.take(b.len() - 1)[k]) by {
            assert(b.take(b.len() - 1)[k] == b[k]);
        }
        lemma_trim_back_take(b.take(b.len() - 1), j);
        assert(b.take(b.len() - 1).take(j) =~= b.take(j));
    }
}

fn ws_byte(b: u8) -> (r: bool)
    ensures
        r == is_ws(b),
{
    b == 32 || b == 9 || b == 10 || b == 13
}

fn first_non_ws(v: &Vec<u8>) -> (lo: usize)
    ensures
        lo <= v@.len(),
        forall|k: int| 0 <= k < lo ==> is_ws(v@[k]),
        lo < v@.len() ==> !is_ws(v@[lo as int]),
{
    let n = v.len();
    let mut lo: usize = 0;
    loop
        invariant
            lo <= n,
            n == v@.len(),
            forall|k: int| 0 <= k < lo ==> is_ws(v@[k]),
        decreases n - lo,
    {
        if lo == n {
            return lo;
        }
        if !ws_byte(v[lo]) {
            return lo;
        }
        lo = lo + 1;
    }
}

fn last_non_ws_end(v: &Vec<u8>, lo: usize) -> (hi: usize)
    requires
        lo <= v@.len(),
    ensures
        lo <= hi <= v@.len(),
        forall|k: int| hi <= k < v@.len() ==> is_ws(v@[k]),
        hi > lo ==> !is_ws(v@[hi - 1]),
{
    let n = v.len();
    let mut hi: usize = n;
    loop
        invariant
            lo <= hi <= n,
            n == v@.len(),
            forall|k: int| hi <= k < n ==> is_ws(v@[k]),
        decreases hi,
    {
        if hi == lo {
            return hi;
        }
        if !ws_byte(v[hi - 1]) {
            return hi;
        }
        hi = hi - 1;
    }
}

/// Extracts the content identifier from the store client's standard
/// output: the output trimmed of surrounding whitespace.  Empty output is
/// a fatal tool error; output that is not UTF-8 is a fatal encoding error.
pub fn parse_cid(stdout: Vec<u8>) -> (r: Result<String, StageError>)
    ensures
        ({
            let t = trim_ws(stdout@);
            &&& (r is Ok <==> t.len() > 0 && valid_utf8(t))
            &&& (r matches Ok(s) ==> s@ == decode_utf8(t))
            &&& (r matches Err(e) ==> e.stage == Stage::Publish)
            &&& (r matches Err(e) ==> (t.len() == 0 ==> e.kind == ErrorKind::Tool && e.detail@
                == "store returned empty output"@))
            &&& (r matches Err(e) ==> (t.len() > 0 ==> e.kind == ErrorKind::Encoding && e.detail@
                == "store output was not valid UTF-8"@))
        }),
{
    let ghost b = stdout@;
    let lo = first_non_ws(&stdout);
    let hi = last_non_ws_end(&stdout, lo);
    let mut trimmed: Vec<u8> = Vec::new();
    proof {
        assert(trimmed@ =~= b.subrange(lo as int, lo as int));
    }
    let mut i: usize = lo;
    while i < hi
        invariant
            lo <= i <= hi <= stdout@.len(),
            b == stdout@,
            trimmed@ == b.subrange(lo as int, i as int),
        decreases hi - i,
    {
        let x = stdout[i];
        trimmed.push(x);
        proof {
            assert(b.subrange(lo as int, i as int + 1) =~= b.subrange(lo as int, i as int).push(
                b[i as int],
            ));
        }
        i = i + 1;
    }
    proof {
        lemma_trim_front_skip(b, lo as int);
        let t = b.skip(lo as int);
        if lo < stdout.len() {
            assert(t[0] == b[lo as int]);
            assert(trim_front(t) == t);
        } else {
            assert(t.len() == 0);
            assert(trim_front(t) == t);
        }
        assert forall|k: int| hi - lo <= k < t.len() implies is_ws(t[k]) by {
            assert(t[k] == b[k + lo]);
        }
        lemma_trim_back_take(t, hi as int - lo as int);
        let u = t.take(hi as int - lo as int);
        if hi > lo {
            assert(u.last() == t[hi - lo - 1]);
            assert(t[hi - lo - 1] == b[hi - 1]);
            assert(trim_back(u) == u);
        } else {
            assert(u.len() == 0);
            assert(trim_back(u) == u);
        }
        assert(trim_ws(b) == u);
        assert(u =~= b.subrange(lo as int, hi as int));
        assert(trimmed@ == trim_ws(b));
    }
    if trimmed.len() == 0 {
        return Err(
            StageError {
                stage: Stage::Publish,
                kind: ErrorKind::Tool,
                detail: String::from_str("store returned empty output"),
            },
        );
    }
    match utf8_to_string(trimmed) {
        Some(s) => Ok(s),
        None => Err(
            StageError {
                stage: Stage::Publish,
                kind: ErrorKind::Encoding,
                detail: String::from_str("store output was not valid UTF-8"),
            },
        ),
    }
}

/// The store client's submission command: `add` in quiet, short-form mode
/// (a single identifier on standard output), then the file to submit.
pub fn publish_command_args(path: &str) -> (r: Vec<String>)
    ensures
        r@.len() == 3,
        r@[0]@ == "add"@,
        r@[1]@ == "-Q"@,
        r@[2]@ == path@,
{
    let mut v: Vec<String> = Vec::new();
    v.push(String::from_str("add"));
    v.push(String::from_str("-Q"));
    v.push(path.to_owned());
    v
}

} // verus!
