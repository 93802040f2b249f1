//! Character and text utilities shared by the codec, the resolver, the
//! authorization gate and the registry: splitting on a separator character,
//! splitting into lines the way the stored files are line-oriented, and
//! whitespace removal.

use vstd::prelude::*;

verus! {

/// Relies on `String::push`: appends exactly one character to the string.
#[verifier::external_body]
pub(crate) fn push_char(s: &mut String, c: char)
    ensures
        final(s)@ == old(s)@.push(c),
{
    s.push(c);
}

/// Character-wise string equality.
pub fn str_eq(a: &str, b: &str) -> (r: bool)
    ensures
        r == (a@ == b@),
{
    let n = a.unicode_len();
    if n != b.unicode_len() {
        return false;
    }
    let mut i: usize = 0;
    while i < n
        invariant
            i <= n,
            n == a@.len(),
            n == b@.len(),
            forall|j: int| 0 <= j < i ==> a@[j] == b@[j],
        decreases n - i,
    {
        if a.get_char(i) != b.get_char(i) {
            return false;
        }
        i = i + 1;
    }
    proof {
        assert(a@ =~= b@);
    }
    true
}

/// The views of a sequence of strings.
pub open spec fn views(v: Seq<String>) -> Seq<Seq<char>> {
    v.map_values(|x: String| x@)
}

/// Split on a separator character: the segments between occurrences of
/// `sep`, in order. Always at least one segment; the empty text has one
/// empty segment.
pub open spec fn spec_split(s: Seq<char>, sep: char) -> Seq<Seq<char>>
    decreases s.len(),
{
    if s.len() == 0 {
        seq![Seq::<char>::empty()]
    } else {
        let p = spec_split(s.drop_last(), sep);
        if s.last() == sep {
            p + seq![Seq::<char>::empty()]
        } else {
            p.drop_last() + seq![p.last().push(s.last())]
        }
    }
}

pub proof fn lemma_split_len(s: Seq<char>, sep: char)
    ensures
        spec_split(s, sep).len() >= 1,
    decreases s.len(),
{
    if s.len() > 0 {
        lemma_split_len(s.drop_last(), sep);
    }
}

/// Executable split on a separator character.
pub fn split_on(s: &str, sep: char) -> (r: Vec<String>)
    ensures
        views(r@) == spec_split(s@, sep),
{
    let n = s.unicode_len();
    let mut out: Vec<String> = Vec::new();
    let mut cur: String = String::new();
    let mut i: usize = 0;
    while i < n
        invariant
            i <= n,
            n == s@.len(),
            views(out@).push(cur@) =~~= spec_split(s@.take(i as int), sep),
        decreases n - i,
    {
        let c = s.get_char(i);
        proof {
            lemma_split_len(s@.take(i as int), sep);
            assert(s@.take(i + 1).drop_last() =~= s@.take(i as int));
            assert(s@.take(i + 1).last() == s@[i as int]);
        }
        if c == sep {
            let ghost old_out = out@;
            let ghost old_cur = cur@;
            out.push(cur);
            cur = String::new();
            proof {
                assert(views(out@) =~= views(old_out).push(old_cur));
                assert(views(out@).push(cur@) =~~= spec_split(s@.take(i + 1), sep));
            }
        } else {
            push_char(&mut cur, c);
            proof {
                let p = spec_split(s@.take(i as int), sep);
                assert(p.drop_last() =~= views(out@));
                assert(views(out@).push(cur@) =~~= p.drop_last() + seq![p.last().push(c)]);
            }
        }
        i = i + 1;
    }
    proof {
        assert(s@.take(n as int) =~= s@);
    }
    let ghost old_out = out@;
    let ghost old_cur = cur@;
    out.push(cur);
    proof {
        assert(views(out@) =~= views(old_out).push(old_cur));
    }
    out
}

/// A line with one trailing carriage return removed, as `str::lines` strips
/// it.
pub open spec fn strip_cr(l: Seq<char>) -> Seq<char> {
    if l.len() > 0 && l.last() == '\r' {
        l.drop_last()
    } else {
        l
    }
}

/// The lines of a text: segments between newlines, each stripped of one
/// trailing carriage return, with no empty final line when the text ends in
/// a newline. Matches `str::lines`.
pub open spec fn spec_lines(s: Seq<char>) -> Seq<Seq<char>> {
    if s.len() == 0 {
        Seq::<Seq<char>>::empty()
    } else {
        let p = spec_split(s, '\n');
        let kept = if p.last().len() == 0 {
            p.drop_last()
        } else {
            p
        };
        kept.map_values(|l: Seq<char>| strip_cr(l))
    }
}

/// Executable form of [`spec_lines`].
pub fn lines_of(s: &str) -> (r: Vec<String>)
    ensures
        views(r@) == spec_lines(s@),
{
    let mut out: Vec<String> = Vec::new();
    if s.unicode_len() == 0 {
        proof {
            assert(views(out@) =~= spec_lines(s@));
        }
        return out;
    }
    let mut parts = split_on(s, '\n');
    proof {
        lemma_split_len(s@, '\n');
    }
    if parts[parts.len() - 1].as_str().unicode_len() == 0 {
        let ghost before = parts@;
        parts.pop();
        proof {
            assert(views(parts@) =~= views(before).drop_last());
        }
    }
    let ghost kept = views(parts@);
    let n = parts.len();
    let mut i: usize = 0;
    while i < n
        invariant
            i <= n,
            n == parts@.len(),
            kept == views(parts@),
            views(out@) =~~= kept.take(i as int).map_values(|l: Seq<char>| strip_cr(l)),
        decreases n - i,
    {
        let part = &parts[i];
        let ghost old_out = out@;
        let len = part.as_str().unicode_len();
        if len > 0 && part.as_str().get_char(len - 1) == '\r' {
            let stripped = part.as_str().substring_char(0, len - 1).to_owned();
            proof {
                assert(stripped@ =~= strip_cr(kept[i as int]));
            }
            out.push(stripped);
        } else {
            let kept_part = part.clone();
            proof {
                assert(kept_part@ =~= strip_cr(kept[i as int]));
            }
            out.push(kept_part);
        }
        proof {
            assert(kept.take(i + 1).drop_last() =~= kept.take(i as int));
            assert(views(out@) =~= views(old_out).push(strip_cr(kept[i as int])));
        }
        i = i + 1;
    }
    proof {
        assert(kept.take(n as int) =~= kept);
        assert(views(out@) =~~= spec_lines(s@));
    }
    out
}

/// The Unicode whitespace property, as `char::is_whitespace` decides it.
pub open spec fn is_space_char(c: char) -> bool {
    let u = c as u32;
    ||| u == 0x09
    ||| u == 0x0A
    ||| u == 0x0B
    ||| u == 0x0C
    ||| u == 0x0D
    ||| u == 0x20
    ||| u == 0x85
    ||| u == 0xA0
    ||| u == 0x1680
    ||| (0x2000 <= u && u <= 0x200A)
    ||| u == 0x2028
    ||| u == 0x2029
    ||| u == 0x202F
    ||| u == 0x205F
    ||| u == 0x3000
}

fn exec_is_space_char(c: char) -> (r: bool)
    ensures
        r == is_space_char(c),
{
    let u = c as u32;
    u == 0x09 || u == 0x0A || u == 0x0B || u == 0x0C || u == 0x0D || u == 0x20 || u == 0x85
        || u == 0xA0 || u == 0x1680 || (0x2000 <= u && u <= 0x200A) || u == 0x2028 || u == 0x2029
        || u == 0x202F || u == 0x205F || u == 0x3000
}

/// The characters of a text that are not whitespace, in order.
pub open spec fn strip_spaces(s: Seq<char>) -> Seq<char> {
    s.filter(|c: char| !is_space_char(c))
}

/// Removes every whitespace character from a text.
pub fn remove_whitespace(s: &str) -> (r: String)
    ensures
        r@ == strip_spaces(s@),
{
    let n = s.unicode_len();
    let mut out = String::new();
    let mut i: usize = 0;
    while i < n
        invariant
            i <= n,
            n == s@.len(),
            out@ == strip_spaces(s@.take(i as int)),
        decreases n - i,
    {
        let c = s.get_char(i);
        proof {
            reveal(Seq::filter);
            assert(s@.take(i + 1).drop_last() =~= s@.take(i as int));
            assert(s@.take(i + 1).last() == s@[i as int]);
        }
        if !exec_is_space_char(c) {
            push_char(&mut out, c);
        }
        i = i + 1;
    }
    proof {
        assert(s@.take(n as int) =~= s@);
    }
    out
}

/// Copies borrowed string slices into owned strings, in order.
pub fn to_string_vec(as_an_str: Vec<&str>) -> (r: Vec<String>)
    ensures
        r@.len() == as_an_str@.len(),
        forall|i: int| 0 <= i < r@.len() ==> r@[i]@ == as_an_str@[i]@,
{
    let mut out: Vec<String> = Vec::new();
    let n = as_an_str.len();
    let mut i: usize = 0;
    while i < n
        invariant
            i <= n,
            n == as_an_str@.len(),
            out@.len() == i,
            forall|j: int| 0 <= j < i ==> out@[j]@ == as_an_str@[j]@,
        decreases n - i,
    {
        out.push(as_an_str[i].to_owned());
        i = i + 1;
    }
    out
}

} // verus!
