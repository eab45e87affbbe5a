//! The one boundary that touches processes, kept behind a trait so tests can
//! substitute a fake game.

use vstd::prelude::*;
use crate::text;

verus! {

/// What a finished process left behind.
#[derive(Debug, Clone, Default)]
pub struct SpawnResult {
    /// `None` when the process was killed, which is how a timeout ends.
    pub exit_code: Option<i32>,
    pub stdout: String,
    pub stderr: String,
}

/// One run as a record: the program, its arguments, its timeout and what
/// came back.
pub type Call = (Seq<char>, Seq<Seq<char>>, Option<u64>, Result<SpawnResult, String>);

/// Runs a program and hands back what it printed and how it ended.
///
/// Implemented by the real process runner and by the fakes a caller's tests
/// substitute. What comes back is the world's business. A runner that keeps
/// a record (`records_calls`) has every run appended to `calls`, with what
/// came back, so a function here that runs programs states exactly which
/// runs it made and what it made of each answer. `Recorded` gives any runner
/// such a record.
pub trait Spawner {
    /// Whether `calls` is this runner's record of its runs. Unless an
    /// implementation says so, it is not.
    open spec fn records_calls(&self) -> bool {
        false
    }

    /// Every run made through this runner, oldest first.
    open spec fn calls(&self) -> Seq<Call> {
        Seq::empty()
    }

    fn run(&mut self, binary: &str, args: &[String], timeout_secs: Option<u64>) -> (r: Result<SpawnResult, String>)
        ensures
            old(self).records_calls() ==> final(self).records_calls() && final(self).calls() == old(self).calls().push(
                (binary@, text::strs(args@), timeout_secs, r),
            ),
    ;
}

/// A runner that keeps the record of every run made through it.
pub struct Recorded<S: Spawner> {
    pub inner: S,
    pub log: Ghost<Seq<Call>>,
}

impl<S: Spawner> Recorded<S> {
    /// Starts a record, empty, around `inner`.
    pub fn new(inner: S) -> (r: Self)
        ensures
            r.inner == inner,
            r.log@ == Seq::<Call>::empty(),
    {
        Recorded { inner, log: Ghost(Seq::empty()) }
    }
}

impl<S: Spawner> Spawner for Recorded<S> {
    open spec fn records_calls(&self) -> bool {
        true
    }

    open spec fn calls(&self) -> Seq<Call> {
        self.log@
    }

    fn run(&mut self, binary: &str, args: &[String], timeout_secs: Option<u64>) -> (r: Result<SpawnResult, String>) {
        let r = self.inner.run(binary, args, timeout_secs);
        self.log = Ghost(self.log@.push((binary@, text::strs(args@), timeout_secs, r)));
        r
    }
}

/// `after` is `before` and one more run, of `binary` with `args` and
/// `timeout_secs`.
pub open spec fn one_run(before: Seq<Call>, after: Seq<Call>, binary: Seq<char>, args: Seq<Seq<char>>, timeout_secs: Option<u64>) -> bool {
    &&& after.len() == before.len() + 1
    &&& after.drop_last() =~= before
    &&& after.last().0 == binary
    &&& after.last().1 == args
    &&& after.last().2 == timeout_secs
}

/// `r` is what a run's answer `reply` amounts to when `decide` says what a
/// finished run means: the runner's own error, or `decide`'s answer.
pub open spec fn ends_as(
    r: Result<String, String>,
    reply: Result<SpawnResult, String>,
    decide: spec_fn(SpawnResult) -> Result<Seq<char>, Seq<char>>,
) -> bool {
    match reply {
        Err(e) => r == Err::<String, String>(e),
        Ok(out) => match (r, decide(out)) {
            (Ok(p), Ok(w)) => p@ == w,
            (Err(m), Err(w)) => m@ == w,
            _ => false,
        },
    }
}

/// How many bytes `c` takes in UTF-8.
pub open spec fn utf8_len(c: char) -> nat {
    let u = c as u32;
    if u < 0x80 {
        1
    } else if u < 0x800 {
        2
    } else if u < 0x10000 {
        3
    } else {
        4
    }
}

/// How many bytes `s` takes in UTF-8.
pub open spec fn byte_len(s: Seq<char>) -> nat
    decreases s.len(),
{
    if s.len() == 0 {
        0
    } else {
        utf8_len(s[0]) + byte_len(s.drop_first())
    }
}

/// The first character position, from `k` on, whose suffix fits in `bytes`.
pub open spec fn tail_start(s: Seq<char>, bytes: nat, k: int) -> int
    decreases s.len() - k,
{
    if k >= s.len() || byte_len(s.skip(k)) <= bytes {
        k
    } else {
        tail_start(s, bytes, k + 1)
    }
}

/// The longest suffix of `s` that fits in `bytes` bytes of UTF-8, which is
/// what cutting at `len - bytes` and moving forward to a character boundary
/// gives.
pub open spec fn tail_spec(s: Seq<char>, bytes: nat) -> Seq<char> {
    s.skip(tail_start(s, bytes, 0))
}

fn utf8_len_exec(c: char) -> (n: u128)
    ensures
        n == utf8_len(c),
{
    let u = c as u32;
    if u < 0x80 {
        1
    } else if u < 0x800 {
        2
    } else if u < 0x10000 {
        3
    } else {
        4
    }
}

proof fn lemma_byte_len_bound(s: Seq<char>)
    ensures
        byte_len(s) <= 4 * s.len(),
    decreases s.len(),
{
    if s.len() > 0 {
        lemma_byte_len_bound(s.drop_first());
    }
}

/// Returns at most `bytes` from the end of `text`, on a character boundary.
pub fn tail(text: &str, bytes: usize) -> (r: String)
    ensures
        r@ == tail_spec(text@, bytes as nat),
        byte_len(r@) <= bytes || r@ == text@,
{
    let s = text::chars_of(text);
    // The byte length of each suffix, longest first.
    let mut total: u128 = 0;
    let mut i: usize = s.len();
    assert(s@.skip(s.len() as int) =~= Seq::<char>::empty());
    while i > 0
        invariant
            i <= s.len(),
            total == byte_len(s@.skip(i as int)),
            total <= 4 * (s.len() - i),
        decreases i,
    {
        proof {
            assert(s@.skip(i - 1).drop_first() =~= s@.skip(i as int));
            lemma_byte_len_bound(s@.skip(i as int));
        }
        total = total + utf8_len_exec(s[i - 1]);
        i = i - 1;
    }
    let mut k: usize = 0;
    let mut rest = total;
    assert(s@.skip(0) == s@);
    while k < s.len() && rest > bytes as u128
        invariant
            k <= s.len(),
            rest == byte_len(s@.skip(k as int)),
            tail_start(s@, bytes as nat, 0) == tail_start(s@, bytes as nat, k as int),
        decreases s.len() - k,
    {
        assert(s@.skip(k as int).drop_first() =~= s@.skip(k + 1));
        rest = rest - utf8_len_exec(s[k]);
        k = k + 1;
    }
    assert(s@.skip(s.len() as int) =~= Seq::<char>::empty());
    let r = text::slice(&s, k, s.len());
    assert(r@ == s@.skip(k as int));
    text::string_of(&r)
}

} // verus!
