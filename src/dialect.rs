use vstd::prelude::*;
use vstd::string::StrSliceExecFns;

verus! {

/// The position of the last `.` or `/` before `n`, or -1.
pub open spec fn last_mark(s: Seq<char>, n: int) -> int
    decreases n,
{
    if n <= 0 {
        -1
    } else if s[n - 1] == '.' || s[n - 1] == '/' {
        n - 1
    } else {
        last_mark(s, n - 1)
    }
}

/// The extension of a path: what follows the last `.` of its file name,
/// where that `.` is not the name's first character.
pub open spec fn extension_of(s: Seq<char>) -> Option<Seq<char>> {
    let p = last_mark(s, s.len() as int);
    if p > 0 && s[p] == '.' && s[p - 1] != '/' {
        Some(s.subrange(p + 1, s.len() as int))
    } else {
        None
    }
}

/// (typed, JSX) for a file extension; anything else is typed with JSX.
pub open spec fn dialect_of(ext: Option<Seq<char>>) -> (bool, bool) {
    match ext {
        Some(e) => if e == seq!['t', 's'] || e == seq!['m', 't', 's'] {
            (true, false)
        } else if e == seq!['m', 't', 's', 'x'] {
            (true, true)
        } else if e == seq!['j', 's'] || e == seq!['m', 'j', 's'] || e == seq!['c', 'j', 's'] {
            (false, false)
        } else if e == seq!['j', 's', 'x'] || e == seq!['m', 'j', 's', 'x'] || e == seq!['c', 'j', 's', 'x'] {
            (false, true)
        } else {
            (true, true)
        },
        None => (true, true),
    }
}

/// Whether the characters of `s` from `from` on are those of `lit`.
fn tail_is(s: &str, len: usize, from: usize, lit: &str) -> (r: bool)
    requires
        len == s@.len(),
        from <= len,
    ensures
        r == (s@.subrange(from as int, len as int) == lit@),
{
    let n = lit.unicode_len();
    if len - from != n {
        assert(s@.subrange(from as int, len as int).len() != lit@.len());
        return false;
    }
    let mut i: usize = 0;
    while i < n
        invariant
            0 <= i <= n,
            n == lit@.len(),
            len - from == n,
            len == s@.len(),
            forall|j: int| 0 <= j < i ==> s@[from + j] == lit@[j],
        decreases n - i,
    {
        if s.get_char(from + i) != lit.get_char(i) {
            assert(s@.subrange(from as int, len as int)[i as int] != lit@[i as int]);
            return false;
        }
        i = i + 1;
    }
    assert(s@.subrange(from as int, len as int) =~= lit@);
    true
}

fn mark_before(src: &str, len: usize, i: usize) -> (r: bool)
    requires
        len == src@.len(),
        0 < i <= len,
    ensures
        r == (src@[i - 1] == '.' || src@[i - 1] == '/'),
{
    let c = src.get_char(i - 1);
    c == '.' || c == '/'
}

/// Which dialect a path selects by its extension: (typed, JSX).
pub fn parse_filename(src: &str) -> (r: (bool, bool))
    ensures
        r == dialect_of(extension_of(src@)),
{
    let len = src.unicode_len();
    let mut i: usize = len;
    while i > 0 && !mark_before(src, len, i)
        invariant
            0 <= i <= len,
            len == src@.len(),
            last_mark(src@, len as int) == last_mark(src@, i as int),
        decreases i,
    {
        i = i - 1;
    }
    assert(last_mark(src@, len as int) == i - 1);
    if i < 2 || src.get_char(i - 1) != '.' || src.get_char(i - 2) == '/' {
        return (true, true);
    }
    let from = i;
    assert(extension_of(src@) == Some(src@.subrange(from as int, len as int)));
    proof {
        reveal_strlit("ts");
        reveal_strlit("mts");
        reveal_strlit("mtsx");
        reveal_strlit("js");
        reveal_strlit("mjs");
        reveal_strlit("cjs");
        reveal_strlit("jsx");
        reveal_strlit("mjsx");
        reveal_strlit("cjsx");
        assert("ts"@ =~= seq!['t', 's']);
        assert("mts"@ =~= seq!['m', 't', 's']);
        assert("mtsx"@ =~= seq!['m', 't', 's', 'x']);
        assert("js"@ =~= seq!['j', 's']);
        assert("mjs"@ =~= seq!['m', 'j', 's']);
        assert("cjs"@ =~= seq!['c', 'j', 's']);
        assert("jsx"@ =~= seq!['j', 's', 'x']);
        assert("mjsx"@ =~= seq!['m', 'j', 's', 'x']);
        assert("cjsx"@ =~= seq!['c', 'j', 's', 'x']);
    }
    if tail_is(src, len, from, "ts") || tail_is(src, len, from, "mts") {
        (true, false)
    } else if tail_is(src, len, from, "mtsx") {
        (true, true)
    } else if tail_is(src, len, from, "js") || tail_is(src, len, from, "mjs") || tail_is(src, len, from, "cjs") {
        (false, false)
    } else if tail_is(src, len, from, "jsx") || tail_is(src, len, from, "mjsx") || tail_is(src, len, from, "cjsx") {
        (false, true)
    } else {
        (true, true)
    }
}

} // verus!
