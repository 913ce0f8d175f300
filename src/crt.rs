use vstd::prelude::*;

verus! {

/// Most bytes that `sprintf` writes, its terminating zero included.
pub const SPRINTF_BOUND: usize = 511;

/// Whether `n` is the length of the C string at the start of `s`: no zero byte
/// before `n`, and a zero byte at `n` unless `s` ends there.
pub open spec fn is_c_len(s: Seq<u8>, n: nat) -> bool {
    &&& n <= s.len()
    &&& forall|i: int| 0 <= i < n ==> #[trigger] s[i] != 0
    &&& n < s.len() ==> s[n as int] == 0
}

/// The length of the C string at the start of `s`.
pub open spec fn c_len(s: Seq<u8>) -> nat {
    choose|n: nat| is_c_len(s, n)
}

/// The bytes of the C string at the start of `s`, without its terminator.
pub open spec fn c_str(s: Seq<u8>) -> Seq<u8> {
    s.subrange(0, c_len(s) as int)
}

proof fn lemma_c_len_unique(s: Seq<u8>, a: nat, b: nat)
    requires
        is_c_len(s, a),
        is_c_len(s, b),
    ensures
        a == b,
{
    if a < b {
        assert(s[a as int] != 0);
    } else if b < a {
        assert(s[b as int] != 0);
    }
}

/// The length of the C string at the start of `s`: the index of its first zero
/// byte, or its length where it holds none.
pub fn c_strlen(s: &[u8]) -> (n: usize)
    ensures
        n == c_len(s@),
        is_c_len(s@, n as nat),
{
    let mut n: usize = 0;
    while n < s.len() && s[n] != 0
        invariant
            n <= s@.len(),
            forall|i: int| 0 <= i < n ==> #[trigger] s@[i] != 0,
        decreases s@.len() - n,
    {
        n = n + 1;
    }
    proof {
        assert(is_c_len(s@, n as nat));
        lemma_c_len_unique(s@, n as nat, c_len(s@));
    }
    n
}

/// A copy of the C string at the start of `s`, without its terminator.
pub fn c_string(s: &[u8]) -> (r: Vec<u8>)
    ensures
        r@ == c_str(s@),
{
    let n = c_strlen(s);
    let mut r: Vec<u8> = Vec::new();
    let mut i: usize = 0;
    while i < n
        invariant
            i <= n,
            n == c_len(s@),
            n <= s@.len(),
            r@ == s@.subrange(0, i as int),
        decreases n - i,
    {
        r.push(s[i]);
        i = i + 1;
        assert(r@ =~= s@.subrange(0, i as int));
    }
    r
}

/// The line that `puts` logs: the C string `s`.
pub fn puts(s: &[u8]) -> (line: Vec<u8>)
    ensures
        line@ == c_str(s@),
{
    c_string(s)
}

/// The line that `printf` logs: the rendered message, up to its terminator.
pub fn printf(s: &[u8]) -> (line: Vec<u8>)
    ensures
        line@ == c_str(s@),
{
    c_string(s)
}

/// The line that the PHY's `printf` logs.
pub fn phy_printf(s: &[u8]) -> (line: Vec<u8>)
    ensures
        line@ == c_str(s@),
{
    c_string(s)
}

/// The line that the coexistence `printf` logs.
pub fn coexist_printf(s: &[u8]) -> (line: Vec<u8>)
    ensures
        line@ == c_str(s@),
{
    c_string(s)
}

/// The line that the 802.11 layer's `printf` logs.
pub fn net80211_printf(s: &[u8]) -> (line: Vec<u8>)
    ensures
        line@ == c_str(s@),
{
    c_string(s)
}

/// The line that the packet layer's `printf` logs.
pub fn pp_printf(s: &[u8]) -> (line: Vec<u8>)
    ensures
        line@ == c_str(s@),
{
    c_string(s)
}

/// How many bytes of text `sprintf` keeps, where `dst_len` bytes are at hand.
pub open spec fn sprintf_kept(text_len: nat, dst_len: nat) -> nat {
    let room = if dst_len < SPRINTF_BOUND {
        dst_len
    } else {
        SPRINTF_BOUND as nat
    };
    if room == 0 {
        0
    } else if text_len < room {
        text_len
    } else {
        (room - 1) as nat
    }
}

/// Writes the rendered C string `rendered` into `dst`, truncated so that text
/// and terminating zero fit in the first `min(SPRINTF_BOUND, dst.len())` bytes,
/// and returns how many bytes of text it wrote. Nothing at or past that bound is
/// touched; where it is 0 nothing is written at all.
pub fn sprintf(dst: &mut Vec<u8>, rendered: &[u8]) -> (written: i32)
    ensures
        written == sprintf_kept(c_len(rendered@), old(dst)@.len()),
        written < SPRINTF_BOUND,
        final(dst)@.len() == old(dst)@.len(),
        forall|i: int| 0 <= i < written ==> #[trigger] final(dst)@[i] == rendered@[i],
        old(dst)@.len() > 0 ==> final(dst)@[written as int] == 0,
        forall|i: int| written < i < old(dst)@.len() ==> #[trigger] final(dst)@[i] == old(dst)@[i],
{
    let text_len = c_strlen(rendered);
    let room: usize = if dst.len() < SPRINTF_BOUND {
        dst.len()
    } else {
        SPRINTF_BOUND
    };
    if room == 0 {
        return 0;
    }
    let kept: usize = if text_len < room {
        text_len
    } else {
        room - 1
    };
    let mut i: usize = 0;
    while i < kept
        invariant
            i <= kept,
            kept < room,
            room <= dst@.len(),
            kept <= rendered@.len(),
            dst@.len() == old(dst)@.len(),
            forall|j: int| 0 <= j < i ==> #[trigger] dst@[j] == rendered@[j],
            forall|j: int| i <= j < dst@.len() ==> #[trigger] dst@[j] == old(dst)@[j],
        decreases kept - i,
    {
        dst[i] = rendered[i];
        i = i + 1;
    }
    dst[kept] = 0;
    kept as i32
}

/// Where the last `c` (as a byte, as C converts it) stands in the C string `s`,
/// its terminator included; `None` where it does not occur.
pub fn strrchr(s: &[u8], c: u32) -> (r: Option<usize>)
    ensures
        ({
            let t = c_str(s@).push(0u8);
            let ch = (c % 256) as u8;
            match r {
                Some(i) => i < t.len() && t[i as int] == ch && forall|j: int|
                    i < j < t.len() ==> #[trigger] t[j] != ch,
                None => forall|j: int| 0 <= j < t.len() ==> #[trigger] t[j] != ch,
            }
        }),
{
    let ch: u8 = (c % 256) as u8;
    let n = c_strlen(s);
    let ghost t = c_str(s@).push(0u8);
    if ch == 0 {
        return Some(n);
    }
    let mut i: usize = n;
    while i > 0
        invariant
            i <= n,
            n == c_len(s@),
            n <= s@.len(),
            t == c_str(s@).push(0u8),
            ch != 0,
            ch == (c % 256) as u8,
            forall|j: int| i <= j < t.len() ==> #[trigger] t[j] != ch,
        decreases i,
    {
        i = i - 1;
        assert(t[i as int] == s@[i as int]);
        if s[i] == ch {
            return Some(i);
        }
    }
    None
}

} // verus!
