//! Reading a Factorio version out of `factorio --version`.

use vstd::prelude::*;
use crate::text;

verus! {

/// A parsed `factorio --version` first line.
#[derive(Debug, Clone, PartialEq, Eq)]
pub struct VersionInfo {
    /// The full first line, trimmed. This is what a fixture stamps, because it
    /// carries the build number and platform as well as the version.
    pub line: String,
    pub major: u32,
    pub minor: u32,
    pub patch: u32,
}

/// `major.minor`, the value a mod's `info.json` declares.
pub open spec fn major_minor_spec(major: u32, minor: u32) -> Seq<char> {
    text::decimal(major as nat) + seq!['.'] + text::decimal(minor as nat)
}

/// `major.minor.patch`, the value an install is selected by.
pub open spec fn triple_spec(major: u32, minor: u32, patch: u32) -> Seq<char> {
    text::decimal(major as nat) + seq!['.'] + text::decimal(minor as nat) + seq!['.'] + text::decimal(
        patch as nat,
    )
}

impl VersionInfo {
    /// The value a mod's `info.json` must declare in `factorio_version`.
    ///
    /// Derived, never hardcoded. A mod declaring 2.1 against a 2.0.x binary is
    /// skipped in silence, and the run ends with no dump and nothing in
    /// Factorio's output naming the cause.
    pub fn major_minor(&self) -> (s: String)
        ensures
            s@ == major_minor_spec(self.major, self.minor),
    {
        let mut v = text::decimal_chars(self.major as u64);
        v.push('.');
        let m = text::decimal_chars(self.minor as u64);
        text::push_all(&mut v, &m);
        text::string_of(&v)
    }

    /// The full `major.minor.patch`, which is what selects an install.
    pub fn triple(&self) -> (s: String)
        ensures
            s@ == triple_spec(self.major, self.minor, self.patch),
    {
        let mut v = text::decimal_chars(self.major as u64);
        v.push('.');
        let m = text::decimal_chars(self.minor as u64);
        text::push_all(&mut v, &m);
        v.push('.');
        let p = text::decimal_chars(self.patch as u64);
        text::push_all(&mut v, &p);
        text::string_of(&v)
    }
}

/// A character that separates candidate version tokens: anything but an
/// ASCII digit or a dot.
pub open spec fn version_sep(c: char) -> bool {
    !(text::is_digit(c) || c == '.')
}

/// The line split at every separator, empty pieces included.
pub open spec fn version_tokens(s: Seq<char>) -> Seq<Seq<char>>
    decreases s.len(),
{
    if s.len() == 0 {
        seq![Seq::<char>::empty()]
    } else {
        let r = version_tokens(s.drop_last());
        if version_sep(s.last()) {
            r.push(Seq::<char>::empty())
        } else {
            r.update(r.len() - 1, r.last().push(s.last()))
        }
    }
}

proof fn lemma_version_tokens_nonempty(s: Seq<char>)
    ensures
        version_tokens(s).len() >= 1,
    decreases s.len(),
{
    if s.len() > 0 {
        lemma_version_tokens_nonempty(s.drop_last());
    }
}

/// A token read as `a.b.c`, each part a `u32`.
pub open spec fn token_triple(t: Seq<char>) -> Option<(u32, u32, u32)> {
    let parts = text::split_on(t, '.');
    if parts.len() != 3 {
        None
    } else {
        match (text::parse_u32_spec(parts[0]), text::parse_u32_spec(parts[1]), text::parse_u32_spec(parts[2])) {
            (Some(a), Some(b), Some(c)) => Some((a, b, c)),
            _ => None,
        }
    }
}

/// The first token, from position `i` on, that reads as a triple.
pub open spec fn first_triple(tokens: Seq<Seq<char>>, i: int) -> Option<(u32, u32, u32)>
    decreases tokens.len() - i,
{
    if i < 0 || i >= tokens.len() {
        None
    } else {
        match token_triple(tokens[i]) {
            Some(t) => Some(t),
            None => first_triple(tokens, i + 1),
        }
    }
}

/// What `parse_version_line` returns, as the trimmed first line and the
/// three numbers.
pub open spec fn parse_version_spec(output: Seq<char>) -> Option<(Seq<char>, u32, u32, u32)> {
    let ls = text::lines(output);
    if ls.len() == 0 {
        None
    } else {
        let line = text::trim(ls[0]);
        match first_triple(version_tokens(line), 0) {
            Some((a, b, c)) => Some((line, a, b, c)),
            None => None,
        }
    }
}

fn version_tokens_exec(s: &Vec<char>) -> (r: Vec<Vec<char>>)
    ensures
        text::views(r@) == version_tokens(s@),
{
    let mut done: Vec<Vec<char>> = Vec::new();
    let mut cur: Vec<char> = Vec::new();
    let mut i: usize = 0;
    while i < s.len()
        invariant
            i <= s.len(),
            text::views(done@).push(cur@) == version_tokens(s@.take(i as int)),
        decreases s.len() - i,
    {
        proof {
            assert(s@.take(i + 1).drop_last() == s@.take(i as int));
            lemma_version_tokens_nonempty(s@.take(i as int));
        }
        let c = s[i];
        if !(('0' <= c && c <= '9') || c == '.') {
            let finished = cur;
            let ghost before = text::views(done@);
            done.push(finished);
            cur = Vec::new();
            assert(text::views(done@) =~= before.push(finished@));
        } else {
            cur.push(c);
        }
        i = i + 1;
        assert(text::views(done@).push(cur@) =~= version_tokens(s@.take(i as int)));
    }
    assert(s@.take(s.len() as int) == s@);
    let ghost before = text::views(done@);
    done.push(cur);
    assert(text::views(done@) =~= before.push(cur@));
    done
}

fn token_triple_exec(t: &Vec<char>) -> (r: Option<(u32, u32, u32)>)
    ensures
        r == token_triple(t@),
{
    let parts = text::split_on_exec(t, '.');
    if parts.len() != 3 {
        return None;
    }
    proof {
        assert(parts@[0]@ == text::views(parts@)[0]);
        assert(parts@[1]@ == text::views(parts@)[1]);
        assert(parts@[2]@ == text::views(parts@)[2]);
    }
    let a = text::parse_u32(&parts[0]);
    let b = text::parse_u32(&parts[1]);
    let c = text::parse_u32(&parts[2]);
    match (a, b, c) {
        (Some(a), Some(b), Some(c)) => Some((a, b, c)),
        _ => None,
    }
}

/// Parses the first line of `factorio --version`.
///
/// Looks for the first token of the form `<digits>.<digits>.<digits>`. A build
/// number or an architecture suffix contains digits too, so a bare digit scan
/// would find the wrong thing.
pub fn parse_version_line(output: &str) -> (r: Option<VersionInfo>)
    ensures
        match (r, parse_version_spec(output@)) {
            (Some(v), Some((line, a, b, c))) => v.line@ == line && v.major == a && v.minor == b
                && v.patch == c,
            (None, None) => true,
            _ => false,
        },
{
    let out = text::chars_of(output);
    let ls = text::lines_exec(&out);
    if ls.len() == 0 {
        return None;
    }
    proof {
        assert(ls@[0]@ == text::views(ls@)[0]);
    }
    let line = text::trim_exec(&ls[0]);
    assert(line@ == text::trim(text::lines(out@)[0]));
    assert(text::views(ls@).len() == ls@.len());
    assert(text::lines(output@).len() > 0);
    let tokens = version_tokens_exec(&line);
    let mut i: usize = 0;
    while i < tokens.len()
        invariant
            i <= tokens.len(),
            text::views(tokens@) == version_tokens(line@),
            text::lines(output@).len() > 0,
            line@ == text::trim(text::lines(output@)[0]),
            first_triple(text::views(tokens@), 0) == first_triple(text::views(tokens@), i as int),
        decreases tokens.len() - i,
    {
        proof {
            assert(tokens@[i as int]@ == text::views(tokens@)[i as int]);
        }
        match token_triple_exec(&tokens[i]) {
            Some((a, b, c)) => {
                assert(first_triple(text::views(tokens@), i as int) == Some((a, b, c)));
                assert(first_triple(version_tokens(line@), 0) == Some((a, b, c)));
                assert(parse_version_spec(output@) == Some((line@, a, b, c)));
                return Some(VersionInfo { line: text::string_of(&line), major: a, minor: b, patch: c });
            },
            None => {},
        }
        i = i + 1;
    }
    None
}

/// Splitting after a separator: the tokens before it, then the tokens after.
proof fn lemma_tokens_split(x: Seq<char>, c: char, z: Seq<char>)
    requires
        version_sep(c),
    ensures
        version_tokens(x + seq![c] + z) == version_tokens(x) + version_tokens(z),
    decreases z.len(),
{
    let w = x + seq![c] + z;
    if z.len() == 0 {
        assert(w.drop_last() =~= x);
        assert(version_tokens(z) =~= seq![Seq::<char>::empty()]);
        assert(version_tokens(x).push(Seq::<char>::empty()) =~= version_tokens(x) + version_tokens(z));
    } else {
        let z0 = z.drop_last();
        lemma_tokens_split(x, c, z0);
        assert(w.drop_last() =~= x + seq![c] + z0);
        assert(w.last() == z.last());
        lemma_version_tokens_nonempty(z0);
        lemma_version_tokens_nonempty(x);
        let a = version_tokens(x);
        let b = version_tokens(z0);
        if version_sep(z.last()) {
            assert((a + b).push(Seq::<char>::empty()) =~= a + b.push(Seq::<char>::empty()));
        } else {
            assert((a + b).update((a + b).len() - 1, (a + b).last().push(z.last())) =~= a + b.update(
                b.len() - 1,
                b.last().push(z.last()),
            ));
        }
    }
}

/// Text without separators is one token.
proof fn lemma_one_token(t: Seq<char>)
    requires
        forall|i: int| 0 <= i < t.len() ==> !version_sep(#[trigger] t[i]),
    ensures
        version_tokens(t) == seq![t],
    decreases t.len(),
{
    if t.len() > 0 {
        let t0 = t.drop_last();
        assert forall|i: int| 0 <= i < t0.len() implies !version_sep(#[trigger] t0[i]) by {
            assert(t0[i] == t[i]);
        }
        lemma_one_token(t0);
        assert(!version_sep(t[t.len() - 1]));
        assert(t0.push(t.last()) =~= t);
        assert(version_tokens(t) == seq![t0].update(0, t0.push(t.last())));
        assert(seq![t0].update(0, t) =~= seq![t]);
    } else {
        assert(t =~= Seq::<char>::empty());
    }
}

/// Separators alone make empty tokens only.
proof fn lemma_empty_tokens(p: Seq<char>)
    requires
        forall|i: int| 0 <= i < p.len() ==> version_sep(#[trigger] p[i]),
    ensures
        version_tokens(p).len() == p.len() + 1,
        forall|i: int| 0 <= i < version_tokens(p).len() ==> (#[trigger] version_tokens(p)[i]).len() == 0,
    decreases p.len(),
{
    if p.len() > 0 {
        lemma_empty_tokens(p.drop_last());
        assert(version_sep(p[p.len() - 1]));
    }
}

proof fn lemma_skip_empty_tokens(tokens: Seq<Seq<char>>, i: int, n: int)
    requires
        0 <= i <= n < tokens.len(),
        forall|j: int| 0 <= j < n ==> (#[trigger] tokens[j]).len() == 0,
    ensures
        first_triple(tokens, i) == first_triple(tokens, n),
    decreases n - i,
{
    if i < n {
        assert(tokens[i].len() == 0);
        assert(text::split_on(tokens[i], '.') =~= seq![Seq::<char>::empty()]);
        lemma_skip_empty_tokens(tokens, i + 1, n);
    }
}

/// A version written as `a.b.c` is read back, behind a label made of
/// separators only (such as `Version: `) and before whatever follows a
/// separator (such as ` (build 83071, linux64, full)`).
pub proof fn law_a_written_version_is_found(label: Seq<char>, major: u32, minor: u32, patch: u32, rest: Seq<char>)
    requires
        forall|i: int| 0 <= i < label.len() ==> version_sep(#[trigger] label[i]),
        rest.len() == 0 || version_sep(rest[0]),
    ensures
        first_triple(version_tokens(label + triple_spec(major, minor, patch) + rest), 0) == Some((major, minor, patch)),
{
    let t = triple_spec(major, minor, patch);
    let a = text::decimal(major as nat);
    let b = text::decimal(minor as nat);
    let c = text::decimal(patch as nat);
    text::lemma_decimal_reads_back(major as nat);
    text::lemma_decimal_reads_back(minor as nat);
    text::lemma_decimal_reads_back(patch as nat);
    assert forall|i: int| 0 <= i < a.len() implies a[i] != '.' by {
        assert(text::is_digit(a[i]));
    }
    assert forall|i: int| 0 <= i < b.len() implies b[i] != '.' by {
        assert(text::is_digit(b[i]));
    }
    assert forall|i: int| 0 <= i < c.len() implies c[i] != '.' by {
        assert(text::is_digit(c[i]));
    }
    text::lemma_split_without_separator(a, '.');
    text::lemma_split_append(a, b, '.');
    text::lemma_split_append(a + seq!['.'] + b, c, '.');
    assert(text::split_on(t, '.') =~= seq![a, b, c]);
    assert(text::is_digit(a[0]) && text::is_digit(b[0]) && text::is_digit(c[0]));
    assert(token_triple(t) == Some((major, minor, patch)));
    assert forall|i: int| 0 <= i < t.len() implies !version_sep(#[trigger] t[i]) by {
        if i < a.len() {
            assert(t[i] == a[i] && text::is_digit(a[i]));
        } else if i == a.len() {
            assert(t[i] == '.');
        } else if i < a.len() + 1 + b.len() {
            assert(t[i] == b[i - a.len() - 1] && text::is_digit(b[i - a.len() - 1]));
        } else if i == a.len() + 1 + b.len() {
            assert(t[i] == '.');
        } else {
            assert(t[i] == c[i - a.len() - 2 - b.len()] && text::is_digit(c[i - a.len() - 2 - b.len()]));
        }
    }
    lemma_one_token(t);
    // The tokens up to and including the version: empties, then `t`.
    let head = label + t;
    let ht = version_tokens(head);
    if label.len() == 0 {
        assert(head =~= t);
    } else {
        let l0 = label.drop_last();
        assert(head =~= l0 + seq![label.last()] + t);
        assert(version_sep(label[label.len() - 1]));
        lemma_tokens_split(l0, label.last(), t);
        assert forall|i: int| 0 <= i < l0.len() implies version_sep(#[trigger] l0[i]) by {
            assert(l0[i] == label[i]);
        }
        lemma_empty_tokens(l0);
    }
    assert(ht.len() == label.len() + 1);
    assert(ht[label.len() as int] == t);
    assert forall|j: int| 0 <= j < label.len() implies (#[trigger] ht[j]).len() == 0 by {
        let l0 = label.drop_last();
        assert(ht[j] == version_tokens(l0)[j]);
    }
    let all = label + t + rest;
    let tokens = version_tokens(all);
    if rest.len() == 0 {
        assert(all =~= head);
    } else {
        assert(all =~= head + seq![rest[0]] + rest.drop_first());
        lemma_tokens_split(head, rest[0], rest.drop_first());
    }
    assert forall|j: int| 0 <= j < label.len() implies (#[trigger] tokens[j]).len() == 0 by {
        assert(tokens[j] == ht[j]);
    }
    assert(tokens[label.len() as int] == t);
    lemma_skip_empty_tokens(tokens, 0, label.len() as int);
}

/// The version is read off the first line of the output, trimmed: when that
/// line is a label of separators, the version written as `a.b.c`, then
/// anything that starts with a separator, the result is that line and that
/// version, whatever the later lines say.
pub proof fn law_the_first_line_gives_the_version(
    output: Seq<char>,
    label: Seq<char>,
    major: u32,
    minor: u32,
    patch: u32,
    rest: Seq<char>,
)
    requires
        text::lines(output).len() > 0,
        text::trim(text::lines(output)[0]) == label + triple_spec(major, minor, patch) + rest,
        forall|i: int| 0 <= i < label.len() ==> version_sep(#[trigger] label[i]),
        rest.len() == 0 || version_sep(rest[0]),
    ensures
        parse_version_spec(output) == Some((label + triple_spec(major, minor, patch) + rest, major, minor, patch)),
{
    law_a_written_version_is_found(label, major, minor, patch, rest);
}

} // verus!
