//! The formatter that backs `trim_trailing_whitespace` for languages with
//! no formatter of their own: every line loses its trailing whitespace, and
//! the file's own line ending and final-newline shape are kept.

use vstd::prelude::*;

use crate::text::{
    contains_char, contains_pair, has_pair, spec_lines, spec_trim_end, split_lines, trim_end,
    views_of,
};

verus! {

/// The line ending the input uses: the first of `\r\n` or `\n` that occurs
/// anywhere decides for the whole file.
pub open spec fn spec_eol(s: Seq<char>) -> Seq<char> {
    if has_pair(s, '\r', '\n') {
        seq!['\r', '\n']
    } else {
        seq!['\n']
    }
}

/// Every line trimmed at its end, each closed by the chosen line ending.
pub open spec fn join_trimmed(lines: Seq<Seq<char>>, eol: Seq<char>) -> Seq<char>
    decreases lines.len(),
{
    if lines.len() == 0 {
        Seq::empty()
    } else {
        join_trimmed(lines.drop_last(), eol) + spec_trim_end(lines.last()) + eol
    }
}

/// What trimming trailing whitespace yields: an input without any line
/// break is kept as it is; otherwise each line is trimmed at its end, and
/// an input that did not end in a newline does not gain one.
pub open spec fn spec_trim_trailing(s: Seq<char>) -> Seq<char> {
    if !s.contains('\n') {
        s
    } else {
        let eol = spec_eol(s);
        let joined = join_trimmed(spec_lines(s), eol);
        if s.last() == '\n' {
            joined
        } else {
            joined.take(joined.len() - eol.len())
        }
    }
}

proof fn lemma_lines_nonempty(s: Seq<char>)
    requires
        s.len() > 0,
    ensures
        spec_lines(s).len() >= 1,
{
}

/// Remove the trailing whitespace of every line of `input`, keeping its
/// line ending style and whether it ended in a newline.  An input without
/// any line break is returned unchanged.
pub fn trim_trailing_whitespace(input: &str) -> (r: String)
    ensures
        r@ == spec_trim_trailing(input@),
{
    let crlf = contains_pair(input, '\r', '\n');
    if !crlf && !contains_char(input, '\n') {
        proof {
            if has_pair(input@, '\r', '\n') {
                let i = choose|i: int|
                    #![trigger input@[i]]
                    0 <= i && i + 1 < input@.len() && input@[i] == '\r' && input@[i + 1] == '\n';
                assert(input@.contains('\n'));
            }
        }
        return input.to_owned();
    }
    proof {
        if crlf && !input@.contains('\n') {
            let i = choose|i: int|
                #![trigger input@[i]]
                0 <= i && i + 1 < input@.len() && input@[i] == '\r' && input@[i + 1] == '\n';
            assert(input@[i + 1] == '\n');
            assert(input@.contains('\n'));
        }
    }
    let eol: &str = if crlf {
        "\r\n"
    } else {
        "\n"
    };
    proof {
        reveal_strlit("\r\n");
        reveal_strlit("\n");
        assert(eol@ =~= spec_eol(input@));
    }
    let lines = split_lines(input);
    let ghost lv = views_of(lines@);
    let mut buf = String::new();
    let mut i: usize = 0;
    proof {
        assert(lv.take(0) =~= Seq::<Seq<char>>::empty());
        assert(buf@ =~= join_trimmed(lv.take(0), eol@));
    }
    while i < lines.len()
        invariant
            i <= lines@.len(),
            lv == views_of(lines@),
            eol@ == spec_eol(input@),
            buf@ == join_trimmed(lv.take(i as int), eol@),
        decreases lines@.len() - i,
    {
        let t = trim_end(lines[i].as_str());
        buf.append(t);
        buf.append(eol);
        i = i + 1;
        proof {
            assert(lv.take(i as int).drop_last() =~= lv.take(i - 1));
            assert(lv.take(i as int).last() == lv[i - 1]);
            assert(buf@ =~= join_trimmed(lv.take(i as int), eol@));
        }
    }
    proof {
        assert(lv.take(lines@.len() as int) =~= lv);
        lemma_lines_nonempty(input@);
    }
    let n: usize = input.unicode_len();
    if input.get_char(n - 1) == '\n' {
        buf
    } else {
        let el: usize = if crlf {
            2
        } else {
            1
        };
        let m: usize = buf.as_str().unicode_len();
        proof {
            assert(lv.len() >= 1);
            assert(join_trimmed(lv, eol@).len() >= eol@.len());
        }
        let cut = buf.as_str().substring_char(0, m - el);
        proof {
            assert(cut@ =~= buf@.take(m - el));
        }
        cut.to_owned()
    }
}

} // verus!
