//! Character-level text machinery shared by the output parser and the
//! environment construction: line splitting, whitespace tokenizing, trimming,
//! `key=value` splitting, and the uppercasing transform for variable names.
//!
//! Each executable function is specified against a spec-level model over
//! `Seq<char>`; the models are written as folds so the parser's contracts can
//! be stated directly over them.

use vstd::prelude::*;

verus! {

/// Relies on std's `String::push`: appends the given `char` to the end of the
/// string, which vstd does not specify.
pub assume_specification[ String::push ](s: &mut String, c: char)
    ensures
        final(s)@ == old(s)@.push(c),
;

/// ASCII whitespace as the build-script protocol understands it.
pub open spec fn is_space(c: char) -> bool {
    c == ' ' || c == '\t' || c == '\r' || c == '\n' || c == '\u{b}' || c == '\u{c}'
}

#[verifier::when_used_as_spec(is_space)]
pub fn space_char(c: char) -> (r: bool)
    ensures
        r == is_space(c),
{
    c == ' ' || c == '\t' || c == '\r' || c == '\n' || c == '\u{b}' || c == '\u{c}'
}

/// The segments of `s` between `'\n'` separators, in order. A text with no
/// newline is one segment; a trailing newline yields a final empty segment.
pub open spec fn split_lines_spec(s: Seq<char>) -> Seq<Seq<char>>
    decreases s.len(),
{
    if s.len() == 0 {
        seq![Seq::<char>::empty()]
    } else if s.last() == '\n' {
        split_lines_spec(s.drop_last()).push(Seq::<char>::empty())
    } else {
        let p = split_lines_spec(s.drop_last());
        p.update(p.len() - 1, p.last().push(s.last()))
    }
}

pub proof fn lemma_split_lines_nonempty(s: Seq<char>)
    ensures
        split_lines_spec(s).len() >= 1,
    decreases s.len(),
{
    if s.len() > 0 {
        lemma_split_lines_nonempty(s.drop_last());
    }
}

/// Line splitting is compositional: after a newline-terminated text, the
/// lines of what follows start afresh, in order.
pub proof fn lemma_split_lines_concat(a: Seq<char>, b: Seq<char>)
    requires
        a.len() > 0,
        a.last() == '\n',
    ensures
        split_lines_spec(a.add(b)) == split_lines_spec(a).drop_last().add(split_lines_spec(b)),
    decreases b.len(),
{
    let front = split_lines_spec(a).drop_last();
    if b.len() == 0 {
        assert(a.add(b) =~= a);
        assert(front =~= split_lines_spec(a.drop_last()));
        assert(front.add(split_lines_spec(b)) =~= split_lines_spec(a));
    } else {
        lemma_split_lines_concat(a, b.drop_last());
        lemma_split_lines_nonempty(b.drop_last());
        assert(a.add(b).drop_last() =~= a.add(b.drop_last()));
        assert(a.add(b).last() == b.last());
        let mid = split_lines_spec(b.drop_last());
        if b.last() == '\n' {
            assert(split_lines_spec(a.add(b)) =~= front.add(mid.push(Seq::<char>::empty())));
        } else {
            let p = front.add(mid);
            assert(p.last() == mid.last());
            assert(p.update(p.len() - 1, p.last().push(b.last())) =~= front.add(
                mid.update(mid.len() - 1, mid.last().push(b.last())),
            ));
        }
    }
}

pub fn split_lines(s: &str) -> (r: Vec<String>)
    ensures
        r.deep_view() == split_lines_spec(s@),
{
    let n = s.unicode_len();
    let mut lines: Vec<String> = Vec::new();
    let mut cur: String = String::new();
    let mut i: usize = 0;
    while i < n
        invariant
            i <= n,
            n == s@.len(),
            lines.deep_view().push(cur@) == split_lines_spec(s@.subrange(0, i as int)),
        decreases n - i,
    {
        let c = s.get_char(i);
        proof {
            assert(s@.subrange(0, i + 1).drop_last() =~= s@.subrange(0, i as int));
            assert(s@.subrange(0, i + 1).last() == s@[i as int]);
        }
        if c == '\n' {
            lines.push(cur);
            cur = String::new();
            proof {
                assert(lines.deep_view().push(cur@) =~= split_lines_spec(
                    s@.subrange(0, i + 1),
                ));
            }
        } else {
            let ghost prev = lines.deep_view().push(cur@);
            cur.push(c);
            proof {
                assert(lines.deep_view().push(cur@) =~= prev.update(
                    prev.len() - 1,
                    prev.last().push(s@[i as int]),
                ));
            }
        }
        i = i + 1;
    }
    proof {
        assert(s@.subrange(0, n as int) =~= s@);
    }
    lines.push(cur);
    proof {
        assert(lines.deep_view() =~= split_lines_spec(s@));
    }
    lines
}

/// `s` with every trailing whitespace character removed.
pub open spec fn trim_end_spec(s: Seq<char>) -> Seq<char>
    decreases s.len(),
{
    if s.len() == 0 {
        s
    } else if is_space(s.last()) {
        trim_end_spec(s.drop_last())
    } else {
        s
    }
}

pub fn trim_end<'a>(s: &'a str) -> (r: &'a str)
    ensures
        r@ == trim_end_spec(s@),
{
    let n = s.unicode_len();
    proof {
        assert(s@.subrange(0, n as int) =~= s@);
    }
    let mut end = n;
    while end > 0 && space_char(s.get_char(end - 1))
        invariant
            end <= n,
            n == s@.len(),
            trim_end_spec(s@) == trim_end_spec(s@.subrange(0, end as int)),
        decreases end,
    {
        proof {
            assert(s@.subrange(0, end as int).drop_last() =~= s@.subrange(0, end - 1));
        }
        end = end - 1;
    }
    proof {
        if end > 0 {
            assert(s@.subrange(0, end as int).last() == s@[end - 1]);
            assert(trim_end_spec(s@.subrange(0, end as int)) =~= s@.subrange(0, end as int));
        } else {
            assert(trim_end_spec(s@.subrange(0, 0)) =~= s@.subrange(0, 0));
        }
    }
    s.substring_char(0, end)
}

/// Splits `s` at the first `'='`: the part before it and the part after it,
/// or `None` when `s` holds no `'='`.
pub open spec fn split_first_eq(s: Seq<char>) -> Option<(Seq<char>, Seq<char>)>
    decreases s.len(),
{
    if s.len() == 0 {
        None
    } else if s[0] == '=' {
        Some((Seq::<char>::empty(), s.drop_first()))
    } else {
        match split_first_eq(s.drop_first()) {
            None => None,
            Some(kv) => Some((seq![s[0]].add(kv.0), kv.1)),
        }
    }
}

pub fn split_eq<'a>(s: &'a str) -> (r: Option<(&'a str, &'a str)>)
    ensures
        match r {
            None => split_first_eq(s@) is None,
            Some(kv) => split_first_eq(s@) == Some((kv.0@, kv.1@)),
        },
{
    let n = s.unicode_len();
    proof {
        assert(s@.subrange(0, n as int) =~= s@);
        match split_first_eq(s@) {
            None => {},
            Some(kv) => {
                assert(s@.subrange(0, 0).add(kv.0) =~= kv.0);
            },
        }
    }
    let mut i: usize = 0;
    while i < n
        invariant
            i <= n,
            n == s@.len(),
            split_first_eq(s@) == match split_first_eq(s@.subrange(i as int, n as int)) {
                None => None::<(Seq<char>, Seq<char>)>,
                Some(kv) => Some((s@.subrange(0, i as int).add(kv.0), kv.1)),
            },
        decreases n - i,
    {
        let ghost suf = s@.subrange(i as int, n as int);
        proof {
            assert(suf.len() > 0);
            assert(suf[0] == s@[i as int]);
            assert(suf.drop_first() =~= s@.subrange(i + 1, n as int));
        }
        if s.get_char(i) == '=' {
            proof {
                assert(split_first_eq(suf) == Some(
                    (Seq::<char>::empty(), s@.subrange(i + 1, n as int)),
                ));
                assert(s@.subrange(0, i as int).add(Seq::<char>::empty()) =~= s@.subrange(
                    0,
                    i as int,
                ));
            }
            return Some((s.substring_char(0, i), s.substring_char(i + 1, n)));
        }
        proof {
            match split_first_eq(s@.subrange(i + 1, n as int)) {
                None => {},
                Some(kv) => {
                    assert(s@.subrange(0, i as int).add(seq![s@[i as int]].add(kv.0))
                        =~= s@.subrange(0, i + 1).add(kv.0));
                },
            }
        }
        i = i + 1;
    }
    proof {
        assert(s@.subrange(n as int, n as int) =~= Seq::<char>::empty());
    }
    None
}

/// The maximal whitespace-separated tokens of `s`, in order; whitespace runs
/// of any length separate tokens and contribute nothing themselves.
pub open spec fn tokens_of(s: Seq<char>) -> Seq<Seq<char>>
    decreases s.len(),
{
    if s.len() == 0 {
        Seq::<Seq<char>>::empty()
    } else {
        let p = tokens_of(s.drop_last());
        let c = s.last();
        if is_space(c) {
            p
        } else if s.len() >= 2 && !is_space(s[s.len() - 2]) {
            p.update(p.len() - 1, p.last().push(c))
        } else {
            p.push(seq![c])
        }
    }
}

pub fn split_whitespace_tokens(s: &str) -> (r: Vec<String>)
    ensures
        r.deep_view() == tokens_of(s@),
{
    let n = s.unicode_len();
    let mut toks: Vec<String> = Vec::new();
    let mut cur: String = String::new();
    let mut i: usize = 0;
    while i < n
        invariant
            i <= n,
            n == s@.len(),
            cur@.len() == 0 ==> toks.deep_view() == tokens_of(s@.subrange(0, i as int)),
            cur@.len() > 0 ==> toks.deep_view().push(cur@) == tokens_of(
                s@.subrange(0, i as int),
            ),
            cur@.len() > 0 <==> (i > 0 && !is_space(s@[i - 1])),
        decreases n - i,
    {
        let c = s.get_char(i);
        let ghost pre = s@.subrange(0, i as int);
        proof {
            assert(s@.subrange(0, i + 1).drop_last() =~= pre);
            assert(s@.subrange(0, i + 1).last() == s@[i as int]);
            if i > 0 {
                assert(s@.subrange(0, i + 1)[i - 1] == s@[i - 1]);
            }
        }
        if space_char(c) {
            if cur.as_str().is_empty() {
            } else {
                toks.push(cur);
                cur = String::new();
                proof {
                    assert(toks.deep_view() =~= tokens_of(s@.subrange(0, i + 1)));
                }
            }
        } else {
            if cur.as_str().is_empty() {
                cur.push(c);
                proof {
                    assert(cur@ =~= seq![s@[i as int]]);
                    assert(toks.deep_view().push(cur@) =~= tokens_of(s@.subrange(0, i + 1)));
                }
            } else {
                let ghost p = toks.deep_view().push(cur@);
                cur.push(c);
                proof {
                    assert(toks.deep_view().push(cur@) =~= p.update(
                        p.len() - 1,
                        p.last().push(s@[i as int]),
                    ));
                }
            }
        }
        i = i + 1;
    }
    proof {
        assert(s@.subrange(0, n as int) =~= s@);
    }
    if !cur.as_str().is_empty() {
        toks.push(cur);
    }
    toks
}

/// Character-by-character string equality, so that verified code can compare
/// protocol keys and links names.
pub fn str_eq(a: &str, b: &str) -> (r: bool)
    ensures
        r == (a@ == b@),
{
    let alen = a.unicode_len();
    let blen = b.unicode_len();
    if alen != blen {
        return false;
    }
    let mut i: usize = 0;
    while i < alen
        invariant
            i <= alen,
            alen == a@.len(),
            alen == b@.len(),
            forall|j: int| 0 <= j < i ==> a@[j] == b@[j],
        decreases alen - i,
    {
        if a.get_char(i) != b.get_char(i) {
            return false;
        }
        i = i + 1;
    }
    proof {
        assert(a@ =~= b@);
    }
    true
}

/// How one character of a feature or metadata name is rendered in an
/// environment-variable name: ASCII lowercase is uppercased and `-` becomes
/// `_`; everything else is kept.
pub open spec fn envify_char(c: char) -> char {
    if c == '-' {
        '_'
    } else if 'a' <= c && c <= 'z' {
        (((c as u8) - 32) as char)
    } else {
        c
    }
}

/// The environment-variable rendering of a whole name.
pub open spec fn envify_spec(s: Seq<char>) -> Seq<char> {
    Seq::new(s.len(), |i: int| envify_char(s[i]))
}

pub fn envify(s: &str) -> (r: String)
    ensures
        r@ == envify_spec(s@),
{
    let n = s.unicode_len();
    let mut out = String::new();
    let mut i: usize = 0;
    while i < n
        invariant
            i <= n,
            n == s@.len(),
            out@ == envify_spec(s@).subrange(0, i as int),
        decreases n - i,
    {
        let c = s.get_char(i);
        let e: char = if c == '-' {
            '_'
        } else if 'a' <= c && c <= 'z' {
            ((c as u8) - 32) as char
        } else {
            c
        };
        out.push(e);
        proof {
            assert(out@ =~= envify_spec(s@).subrange(0, i + 1));
        }
        i = i + 1;
    }
    proof {
        assert(envify_spec(s@).subrange(0, n as int) =~= envify_spec(s@));
    }
    out
}

} // verus!
