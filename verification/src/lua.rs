//! The only place this tool writes Lua on a consumer's behalf.
//!
//! Consumer Lua is otherwise opaque: never templated, escaped, rewritten, or
//! wrapped. Wrapping in `script.on_init` would be a convenient default and
//! would make an `on_tick` probe with registered commands impossible.

use vstd::prelude::*;
use crate::strmap::StrMap;
use crate::text;

verus! {

/// `n` equals signs.
pub open spec fn eqs(n: nat) -> Seq<char> {
    Seq::new(n, |i: int| '=')
}

/// The sequence that closes a long bracket of level `n`: `]`, `n` equals
/// signs, `]`.
pub open spec fn closer(n: nat) -> Seq<char> {
    seq![']'] + eqs(n) + seq![']']
}

/// `]` and `n` equals signs: what a value must not end with at level `n`,
/// because the closing bracket written after it would then complete a closer
/// early.
pub open spec fn half_closer(n: nat) -> Seq<char> {
    seq![']'] + eqs(n)
}

/// Whether level `n` is safe for `value`: its closer does not occur in the
/// value, and cannot be formed across the end of the value either.
pub open spec fn safe_level(value: Seq<char>, n: nat) -> bool {
    !text::contains(value, closer(n)) && !text::ends_with(value, half_closer(n))
}

/// The level chosen for `value`, searching upward from `n`: the first safe
/// one.
pub open spec fn level_from(value: Seq<char>, n: nat) -> nat
    decreases value.len() + 1 - n,
{
    if n > value.len() || safe_level(value, n) {
        n
    } else {
        level_from(value, n + 1)
    }
}

/// The lowest safe level for `value`.
pub open spec fn bracket_level(value: Seq<char>) -> nat {
    level_from(value, 0)
}

/// `value` wrapped in a long bracket of level `n`.
pub open spec fn wrap(value: Seq<char>, n: nat) -> Seq<char> {
    seq!['['] + eqs(n) + seq!['['] + value + closer(n)
}

/// What `long_bracket` returns.
pub open spec fn long_bracket_spec(value: Seq<char>) -> Seq<char> {
    wrap(value, bracket_level(value))
}

/// The opening bracket of level `n`.
pub open spec fn opener(n: nat) -> Seq<char> {
    seq!['['] + eqs(n) + seq!['[']
}

/// Drops the one line break Lua skips right after an opening long bracket:
/// `\r\n`, `\n\r`, `\n` or `\r`.
pub open spec fn skip_first_break(s: Seq<char>) -> Seq<char> {
    if s.len() >= 2 && ((s[0] == '\r' && s[1] == '\n') || (s[0] == '\n' && s[1] == '\r')) {
        s.skip(2)
    } else if s.len() >= 1 && (s[0] == '\n' || s[0] == '\r') {
        s.skip(1)
    } else {
        s
    }
}

/// How Lua reads a long-bracket literal of level `n`: after the opening
/// bracket, everything up to the first closer of the same level, less a
/// line break right after the opening.
pub open spec fn lua_long_string(lit: Seq<char>, n: nat) -> Option<Seq<char>> {
    if text::starts_with(lit, opener(n)) {
        let body = lit.skip(n + 2int);
        match text::find(body, closer(n)) {
            Some(i) => Some(skip_first_break(body.take(i))),
            None => None,
        }
    } else {
        None
    }
}

/// A closer or half closer longer than the value cannot occur in it.
proof fn lemma_long_closer_absent(value: Seq<char>, n: nat)
    requires
        n + 1 > value.len(),
    ensures
        safe_level(value, n),
{
    assert(closer(n).len() == n + 2);
    assert(half_closer(n).len() == n + 1);
}

proof fn lemma_level_from(value: Seq<char>, n: nat)
    requires
        n <= value.len() + 1,
    ensures
        n <= level_from(value, n),
        safe_level(value, level_from(value, n)),
        forall|k: nat| n <= k < level_from(value, n) ==> !safe_level(value, k),
    decreases value.len() + 1 - n,
{
    if n > value.len() {
        lemma_long_closer_absent(value, n);
    } else if !safe_level(value, n) {
        lemma_level_from(value, n + 1);
    }
}

/// At a safe level, no closer starts inside the value.
proof fn lemma_no_early_closer(value: Seq<char>, n: nat, i: int)
    requires
        safe_level(value, n),
        0 <= i < value.len(),
    ensures
        !text::occurs_at(value + closer(n), closer(n), i),
{
    let s = value + closer(n);
    let p = closer(n);
    let len = value.len() as int;
    if text::occurs_at(s, p, i) {
        let w = s.subrange(i, i + p.len());
        if i + p.len() <= len {
            assert(value.subrange(i, i + p.len()) =~= w);
            assert(text::occurs_at(value, p, i));
        } else {
            let d = len - i;
            if d <= n {
                assert(w[d] == s[len]);
                assert(s[len] == ']');
                assert(p[d] == '=');
            } else {
                assert(d == n + 1);
                assert(value.skip(len - (n + 1)) =~= w.take(n + 1int));
                assert(p.take(n + 1int) =~= half_closer(n));
                assert(text::ends_with(value, half_closer(n)));
            }
        }
    }
}

proof fn lemma_find_closer(value: Seq<char>, n: nat, i: int)
    requires
        safe_level(value, n),
        0 <= i <= value.len(),
    ensures
        text::find_from(value + closer(n), closer(n), i) == Some(value.len() as int),
    decreases value.len() - i,
{
    let s = value + closer(n);
    assert(s.subrange(value.len() as int, (value.len() + closer(n).len()) as int) =~= closer(n));
    if i < value.len() {
        lemma_no_early_closer(value, n, i);
        lemma_find_closer(value, n, i + 1);
    }
}

/// Lua reads the literal back as the value itself: the level chosen is the
/// lowest safe one, and at that level the first closer after the opening is
/// the one written after the value. A value that begins with a line break
/// is left out, because Lua drops a break right after the opening bracket.
pub proof fn law_long_bracket_is_verbatim(value: Seq<char>)
    requires
        !(value.len() > 0 && (value[0] == '\n' || value[0] == '\r')),
    ensures
        lua_long_string(long_bracket_spec(value), bracket_level(value)) == Some(value),
        forall|k: nat| k < bracket_level(value) ==> !safe_level(value, k),
{
    lemma_level_from(value, 0);
    let n = bracket_level(value);
    let lit = long_bracket_spec(value);
    assert(lit.take(n + 2int) =~= opener(n));
    assert(lit.skip(n + 2int) =~= value + closer(n));
    lemma_find_closer(value, n, 0);
    assert((value + closer(n)).take(value.len() as int) =~= value);
}

fn closer_exec(n: usize) -> (c: Vec<char>)
    ensures
        c@ == closer(n as nat),
{
    let mut c: Vec<char> = Vec::new();
    c.push(']');
    let mut i: usize = 0;
    while i < n
        invariant
            i <= n,
            c@ == seq![']'] + eqs(i as nat),
        decreases n - i,
    {
        c.push('=');
        i = i + 1;
        assert(c@ =~= seq![']'] + eqs(i as nat));
    }
    c.push(']');
    assert(c@ =~= closer(n as nat));
    c
}

/// Wraps a value in a Lua long bracket at a level that cannot collide with the
/// value's own contents.
///
/// A base64 blueprint string in a quoted Lua string breaks on the first inner
/// quote. A long bracket takes the value verbatim.
pub fn long_bracket(value: &str) -> (s: String)
    ensures
        s@ == long_bracket_spec(value@),
{
    let v = text::chars_of(value);
    let mut level: usize = 0;
    loop
        invariant
            level <= v.len(),
            v@ == value@,
            level_from(value@, 0) == level_from(value@, level as nat),
        ensures
            level <= v.len(),
            v@ == value@,
            level_from(value@, 0) == level as nat,
        decreases v.len() - level,
    {
        let c = closer_exec(level);
        let h = text::slice(&c, 0, c.len() - 1);
        assert(h@ =~= half_closer(level as nat));
        if !text::contains_exec(&v, &c) && !text::ends_with_exec(&v, &h) {
            break;
        }
        proof {
            if level + 1 > v.len() {
                lemma_long_closer_absent(value@, level as nat);
            }
        }
        level = level + 1;
    }
    let mut out: Vec<char> = Vec::new();
    out.push('[');
    let mut i: usize = 0;
    while i < level
        invariant
            i <= level,
            out@ == seq!['['] + eqs(i as nat),
        decreases level - i,
    {
        out.push('=');
        i = i + 1;
        assert(out@ =~= seq!['['] + eqs(i as nat));
    }
    out.push('[');
    text::push_all(&mut out, &v);
    let c = closer_exec(level);
    text::push_all(&mut out, &c);
    assert(out@ =~= long_bracket_spec(value@));
    text::string_of(&out)
}

/// One line of the prelude: `local <name> = <long bracket>` and a newline.
pub open spec fn literal_line(name: Seq<char>, value: Seq<char>) -> Seq<char> {
    "local "@ + name + " = "@ + long_bracket_spec(value) + seq!['\n']
}

/// The prelude for the first `n` entries, in key order.
pub open spec fn prelude_spec(e: Seq<(String, String)>, n: int) -> Seq<char>
    decreases n,
{
    if n <= 0 {
        Seq::empty()
    } else {
        prelude_spec(e, n - 1) + literal_line(e[n - 1].0@, e[n - 1].1@)
    }
}

/// Builds the `local <name> = <long bracket>` lines that precede a consumer's
/// control script.
///
/// Sorted, because the output must be identical between runs: the map
/// iterates in key order.
pub fn build_literals_prelude(literals: &StrMap<String>) -> (s: String)
    ensures
        s@ == prelude_spec(literals.entries@, literals.entries@.len() as int),
{
    let mut out: Vec<char> = Vec::new();
    let mut i: usize = 0;
    while i < literals.entries.len()
        invariant
            i <= literals.entries.len(),
            out@ == prelude_spec(literals.entries@, i as int),
        decreases literals.entries.len() - i,
    {
        let name = &literals.entries[i].0;
        let value = &literals.entries[i].1;
        text::push_str(&mut out, "local ");
        let n = text::chars_of_string(name);
        text::push_all(&mut out, &n);
        text::push_str(&mut out, " = ");
        let b = long_bracket(value.as_str());
        let bc = text::chars_of_string(&b);
        text::push_all(&mut out, &bc);
        out.push('\n');
        i = i + 1;
        assert(out@ =~= prelude_spec(literals.entries@, i as int));
    }
    text::string_of(&out)
}

} // verus!
