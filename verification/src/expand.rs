//! Header pattern expansion: a section header with brace alternation and
//! bracket character classes is turned into the literal glob patterns it
//! denotes.  A single left-to-right scan keeps a stack of in-progress
//! alternative lists, one frame per open group; a closed group is
//! cross-joined against the prefix accumulated in the parent frame and the
//! text that follows the group.  Malformed headers fail closed: the result
//! is empty and the section is skipped.

use vstd::prelude::*;

use crate::text::{contains_char, contains_pair, find_or_len, has_pair, lemma_find_at, views_of};

verus! {

/// The scanner state: the stack of fragment frames, the text run being
/// collected, and whether a group was just closed and waits to be joined
/// at the next delimiter.
pub ghost struct ExpSt {
    pub stack: Seq<Seq<Seq<char>>>,
    pub cur: Seq<char>,
    pub pending: bool,
}

pub open spec fn init_state() -> ExpSt {
    ExpSt { stack: seq![Seq::<Seq<char>>::empty()], cur: Seq::empty(), pending: false }
}

/// Close the current text run: either join the pending group against the
/// parent frame, or push the run onto the top frame.  Fails when a group
/// was closed with no frame left to join into.
pub open spec fn spec_flush(st: ExpSt) -> Option<ExpSt> {
    if st.stack.len() == 0 {
        None
    } else if st.pending {
        if st.stack.len() < 2 {
            None
        } else {
            let frags = st.stack.last();
            let parent = st.stack[st.stack.len() - 2];
            let prefix = if parent.len() > 0 {
                parent.last()
            } else {
                Seq::<char>::empty()
            };
            let parent1 = if parent.len() > 0 {
                parent.drop_last()
            } else {
                parent
            };
            let joined = Seq::new(frags.len(), |k: int| prefix + frags[k] + st.cur);
            Some(
                ExpSt {
                    stack: st.stack.drop_last().update(
                        st.stack.len() - 2,
                        parent1 + joined,
                    ),
                    cur: Seq::empty(),
                    pending: false,
                },
            )
        }
    } else {
        Some(
            ExpSt {
                stack: st.stack.update(st.stack.len() - 1, st.stack.last().push(st.cur)),
                cur: Seq::empty(),
                pending: false,
            },
        )
    }
}

/// Run the scanner over the remaining characters.  `None` means the header
/// is malformed (unbalanced braces or an unclosed character class).
pub open spec fn spec_run(s: Seq<char>, st: ExpSt) -> Option<Seq<Seq<char>>>
    decreases s.len(),
{
    if s.len() == 0 {
        match spec_flush(st) {
            None => None,
            Some(st1) => if st1.stack.len() == 1 {
                Some(st1.stack[0])
            } else {
                None
            },
        }
    } else {
        let c = s.first();
        if c == '{' {
            match spec_flush(st) {
                None => None,
                Some(st1) => spec_run(
                    s.drop_first(),
                    ExpSt {
                        stack: st1.stack.push(Seq::empty()),
                        cur: Seq::empty(),
                        pending: false,
                    },
                ),
            }
        } else if c == ',' {
            match spec_flush(st) {
                None => None,
                Some(st1) => spec_run(s.drop_first(), st1),
            }
        } else if c == '}' {
            match spec_flush(st) {
                None => None,
                Some(st1) => spec_run(
                    s.drop_first(),
                    ExpSt { stack: st1.stack, cur: Seq::empty(), pending: true },
                ),
            }
        } else if c == '[' {
            match spec_flush(st) {
                None => None,
                Some(st1) => {
                    let rest = s.drop_first();
                    let j = find_or_len(rest, ']');
                    if !(0 <= j && j < rest.len()) {
                        None
                    } else {
                        let charset = Seq::new(j as nat, |k: int| seq![rest[k]]);
                        spec_run(
                            rest.skip(j + 1),
                            ExpSt {
                                stack: st1.stack.push(charset),
                                cur: Seq::empty(),
                                pending: true,
                            },
                        )
                    }
                },
            }
        } else {
            spec_run(s.drop_first(), ExpSt { stack: st.stack, cur: st.cur.push(c), pending: st.pending })
        }
    }
}

/// Whether the header asks for constructs the expansion does not support.
pub open spec fn spec_deranged(s: Seq<char>) -> bool {
    s.contains('!') || s.contains('\\') || has_pair(s, '.', '.')
}

/// The non-empty entries of `s`, in order; a trailing separator in a group
/// leaves empty fragments behind, which denote no pattern.
pub open spec fn filter_nonempty(s: Seq<Seq<char>>) -> Seq<Seq<char>>
    decreases s.len(),
{
    if s.len() == 0 {
        Seq::empty()
    } else if s.last().len() > 0 {
        filter_nonempty(s.drop_last()).push(s.last())
    } else {
        filter_nonempty(s.drop_last())
    }
}

/// The patterns a section header denotes.  An unsupported or malformed
/// header denotes no pattern at all.
pub open spec fn spec_expand(h: Seq<char>) -> Seq<Seq<char>> {
    if spec_deranged(h) {
        Seq::empty()
    } else {
        match spec_run(h, init_state()) {
            None => Seq::empty(),
            Some(frame) => filter_nonempty(frame),
        }
    }
}

/// The character views of a stack of fragment frames.
pub open spec fn frames_view(stack: Seq<Vec<String>>) -> Seq<Seq<Seq<char>>> {
    Seq::new(stack.len(), |i: int| views_of(stack[i]@))
}

fn flush_frames(stack: &mut Vec<Vec<String>>, cur: &str, pending: bool) -> (ok: bool)
    requires
        old(stack)@.len() >= 1,
    ensures
        ok ==> spec_flush(ExpSt { stack: frames_view(old(stack)@), cur: cur@, pending })
            == Some(ExpSt { stack: frames_view(final(stack)@), cur: Seq::empty(), pending: false }),
        !ok ==> spec_flush(ExpSt { stack: frames_view(old(stack)@), cur: cur@, pending })
            is None,
        !ok ==> final(stack)@ == old(stack)@,
        final(stack)@.len() >= 1,
{
    let ghost st0 = ExpSt { stack: frames_view(old(stack)@), cur: cur@, pending };
    if pending {
        if stack.len() < 2 {
            return false;
        }
        let frags = stack.pop().unwrap();
        let mut parent = stack.pop().unwrap();
        let ghost parent_v = views_of(parent@);
        let prefix = if parent.len() > 0 {
            parent.pop().unwrap()
        } else {
            String::new()
        };
        let ghost parent1_v = views_of(parent@);
        proof {
            if parent_v.len() > 0 {
                assert(prefix@ == parent_v.last());
                assert(parent1_v =~= parent_v.drop_last());
            } else {
                assert(prefix@ =~= Seq::<char>::empty());
                assert(parent1_v =~= parent_v);
            }
        }
        let ghost frags_v = views_of(frags@);
        let ghost joined = Seq::new(frags_v.len(), |k: int| prefix@ + frags_v[k] + cur@);
        let mut k: usize = 0;
        while k < frags.len()
            invariant
                k <= frags.len(),
                frags_v == views_of(frags@),
                joined == Seq::new(frags_v.len(), |k2: int| prefix@ + frags_v[k2] + cur@),
                views_of(parent@) == parent1_v + joined.take(k as int),
            decreases frags.len() - k,
        {
            let mut t = String::new();
            t.append(prefix.as_str());
            t.append(frags[k].as_str());
            t.append(cur);
            proof {
                assert(t@ == prefix@ + frags_v[k as int] + cur@);
            }
            let ghost before = views_of(parent@);
            parent.push(t);
            k = k + 1;
            proof {
                assert(views_of(parent@) =~= before.push(joined[k - 1]));
                assert(views_of(parent@) =~= parent1_v + joined.take(k as int));
            }
        }
        proof {
            assert(joined.take(frags_v.len() as int) =~= joined);
        }
        let ghost before_stack = frames_view(stack@);
        stack.push(parent);
        proof {
            assert(frames_view(stack@) =~= before_stack.push(parent1_v + joined));
            assert(st0.stack.drop_last() =~= before_stack.push(parent_v));
            assert(st0.stack.drop_last().update(st0.stack.len() - 2, parent1_v + joined)
                =~= frames_view(stack@));
        }
        true
    } else {
        let mut top = stack.pop().unwrap();
        let ghost top_v = views_of(top@);
        top.push(cur.to_owned());
        proof {
            assert(views_of(top@) =~= top_v.push(st0.cur));
        }
        let ghost before_stack = frames_view(stack@);
        stack.push(top);
        proof {
            assert(frames_view(stack@) =~= before_stack.push(top_v.push(st0.cur)));
            assert(st0.stack.update(st0.stack.len() - 1, st0.stack.last().push(st0.cur))
                =~= frames_view(stack@));
        }
        true
    }
}

} // verus!

verus! {

/// Expand a section header into the literal glob patterns it denotes.
/// Unsupported metacharacters, unbalanced groups and unclosed character
/// classes all yield an empty list, and the caller skips the section.
/// The result is pinned to `spec_expand`, so expanding the same header
/// twice yields the same patterns in the same order.
pub fn extract_langs_from_header(header: &str) -> (r: Vec<String>)
    ensures
        views_of(r@) == spec_expand(header@),
{
    if contains_char(header, '!') || contains_char(header, '\\') || contains_pair(
        header,
        '.',
        '.',
    ) {
        let r: Vec<String> = Vec::new();
        proof {
            assert(spec_deranged(header@));
            assert(views_of(r@) =~= spec_expand(header@));
        }
        return r;
    }
    let n: usize = header.unicode_len();
    let mut stack: Vec<Vec<String>> = Vec::new();
    stack.push(Vec::new());
    let mut cur = String::new();
    let mut pending = false;
    let mut i: usize = 0;
    proof {
        assert(views_of(stack@[0]@) =~= Seq::<Seq<char>>::empty());
        assert(frames_view(stack@) =~= init_state().stack);
        assert(ExpSt { stack: frames_view(stack@), cur: cur@, pending } == init_state());
        assert(header@.skip(0) =~= header@);
    }
    while i < n
        invariant
            i <= n,
            n == header@.len(),
            stack@.len() >= 1,
            spec_run(
                header@.skip(i as int),
                ExpSt { stack: frames_view(stack@), cur: cur@, pending },
            ) == spec_run(header@, init_state()),
        decreases n - i,
    {
        let ghost st_pre = ExpSt { stack: frames_view(stack@), cur: cur@, pending };
        let ghost rest = header@.skip(i as int);
        let c = header.get_char(i);
        proof {
            assert(rest.len() == n - i);
            assert(rest.first() == c);
            assert(rest.drop_first() =~= header@.skip(i + 1));
        }
        if c == '{' || c == ',' || c == '}' || c == '[' {
            let ok = flush_frames(&mut stack, cur.as_str(), pending);
            if !ok {
                proof {
                    assert(spec_run(rest, st_pre) is None);
                }
                let r: Vec<String> = Vec::new();
                proof {
                    assert(views_of(r@) =~= spec_expand(header@));
                }
                return r;
            }
            cur = String::new();
            pending = false;
            let ghost st1 = ExpSt { stack: frames_view(stack@), cur: Seq::empty(), pending: false };
            proof {
                assert(spec_flush(st_pre) == Some(st1));
                assert(cur@ =~= Seq::<char>::empty());
            }
            if c == '{' {
                stack.push(Vec::new());
                proof {
                    assert(views_of(Seq::<String>::empty()) =~= Seq::<Seq<char>>::empty());
                    assert(frames_view(stack@) =~= st1.stack.push(Seq::empty()));
                    assert(spec_run(rest, st_pre) == spec_run(
                        header@.skip(i + 1),
                        ExpSt { stack: frames_view(stack@), cur: cur@, pending },
                    ));
                }
            } else if c == ',' {
                proof {
                    assert(spec_run(rest, st_pre) == spec_run(
                        header@.skip(i + 1),
                        ExpSt { stack: frames_view(stack@), cur: cur@, pending },
                    ));
                }
            } else if c == '}' {
                pending = true;
                proof {
                    assert(spec_run(rest, st_pre) == spec_run(
                        header@.skip(i + 1),
                        ExpSt { stack: frames_view(stack@), cur: cur@, pending },
                    ));
                }
            } else {
                // character class: each character before the closing bracket
                // becomes a one-character alternative
                let mut j: usize = i + 1;
                let mut charset: Vec<String> = Vec::new();
                proof {
                    assert(views_of(charset@) =~= Seq::<Seq<char>>::empty());
                }
                while j < n && header.get_char(j) != ']'
                    invariant
                        i + 1 <= j <= n,
                        n == header@.len(),
                        forall|k: int| i + 1 <= k < j ==> header@[k] != ']',
                        views_of(charset@) =~= Seq::new(
                            (j - i - 1) as nat,
                            |k: int| seq![header@[i + 1 + k]],
                        ),
                    decreases n - j,
                {
                    let piece = header.substring_char(j, j + 1).to_owned();
                    proof {
                        assert(piece@ =~= seq![header@[j as int]]);
                    }
                    let ghost before = views_of(charset@);
                    charset.push(piece);
                    j = j + 1;
                    proof {
                        assert(views_of(charset@) =~= before.push(piece@));
                        assert(views_of(charset@) =~= Seq::new(
                            (j - i - 1) as nat,
                            |k: int| seq![header@[i + 1 + k]],
                        ));
                    }
                }
                let ghost rest1 = rest.drop_first();
                if j == n {
                    proof {
                        assert(forall|k: int| 0 <= k < rest1.len() ==> rest1[k] != ']');
                        lemma_find_at(rest1, ']', rest1.len() as int);
                        assert(find_or_len(rest1, ']') == rest1.len());
                        assert(spec_run(rest, st_pre) is None);
                    }
                    let r: Vec<String> = Vec::new();
                    proof {
                        assert(views_of(r@) =~= spec_expand(header@));
                    }
                    return r;
                }
                proof {
                    assert(header@[j as int] == ']');
                    assert(forall|k: int| 0 <= k < j - i - 1 ==> rest1[k] != ']');
                    assert(rest1[j - i - 1] == ']');
                    lemma_find_at(rest1, ']', j - i - 1);
                    assert(find_or_len(rest1, ']') == j - i - 1);
                }
                stack.push(charset);
                pending = true;
                proof {
                    let jj = j - i - 1;
                    assert(views_of(charset@) =~= Seq::new(
                        jj as nat,
                        |k: int| seq![rest1[k]],
                    ));
                    assert(frames_view(stack@) =~= st1.stack.push(views_of(charset@)));
                    assert(rest1.skip(jj + 1) =~= header@.skip(j + 1));
                    assert(spec_run(rest, st_pre) == spec_run(
                        header@.skip(j + 1),
                        ExpSt { stack: frames_view(stack@), cur: cur@, pending },
                    ));
                }
                i = j;
            }
        } else {
            let ghost cur0 = cur@;
            let piece = header.substring_char(i, i + 1);
            proof {
                assert(piece@ =~= seq![c]);
            }
            cur.append(piece);
            proof {
                assert(cur@ =~= cur0.push(c));
                assert(spec_run(rest, st_pre) == spec_run(
                    header@.skip(i + 1),
                    ExpSt { stack: frames_view(stack@), cur: cur@, pending },
                ));
            }
        }
        i = i + 1;
    }
    proof {
        assert(header@.skip(n as int).len() == 0);
    }
    let ghost st_end = ExpSt { stack: frames_view(stack@), cur: cur@, pending };
    let ok = flush_frames(&mut stack, cur.as_str(), pending);
    if !ok {
        proof {
            assert(spec_run(header@.skip(n as int), st_end) is None);
        }
        let r: Vec<String> = Vec::new();
        proof {
            assert(views_of(r@) =~= spec_expand(header@));
        }
        return r;
    }
    let ghost st1 = ExpSt { stack: frames_view(stack@), cur: Seq::empty(), pending: false };
    proof {
        assert(spec_flush(st_end) == Some(st1));
    }
    if stack.len() != 1 {
        proof {
            assert(st1.stack.len() != 1);
            assert(spec_run(header@.skip(n as int), st_end) is None);
        }
        let r: Vec<String> = Vec::new();
        proof {
            assert(views_of(r@) =~= spec_expand(header@));
        }
        return r;
    }
    let frame = stack.pop().unwrap();
    let ghost fv = views_of(frame@);
    proof {
        assert(st1.stack[0] == fv);
        assert(spec_run(header@.skip(n as int), st_end) == Some(fv));
        assert(spec_run(header@, init_state()) == Some(fv));
    }
    let mut out: Vec<String> = Vec::new();
    let mut k: usize = 0;
    proof {
        assert(fv.take(0) =~= Seq::<Seq<char>>::empty());
        assert(views_of(out@) =~= filter_nonempty(fv.take(0)));
    }
    while k < frame.len()
        invariant
            k <= frame.len(),
            fv == views_of(frame@),
            views_of(out@) == filter_nonempty(fv.take(k as int)),
        decreases frame.len() - k,
    {
        let ghost before = views_of(out@);
        let keep = frame[k].as_str().unicode_len() > 0;
        if keep {
            out.push(frame[k].clone());
        }
        k = k + 1;
        proof {
            assert(fv.take(k as int).drop_last() =~= fv.take(k - 1));
            assert(fv.take(k as int).last() == fv[k - 1]);
            if keep {
                assert(views_of(out@) =~= before.push(fv[k - 1]));
            }
            assert(views_of(out@) =~= filter_nonempty(fv.take(k as int)));
        }
    }
    proof {
        assert(fv.take(frame@.len() as int) =~= fv);
        assert(views_of(out@) == spec_expand(header@));
    }
    out
}

} // verus!

verus! {

/// No unexpanded group character remains in `x`.
pub open spec fn group_free(x: Seq<char>) -> bool {
    forall|i: int| 0 <= i < x.len() ==> #[trigger] x[i] != '{' && x[i] != '}' && x[i] != '['
}

pub open spec fn state_clean(st: ExpSt) -> bool {
    group_free(st.cur) && forall|i: int, j: int|
        0 <= i < st.stack.len() && 0 <= j < st.stack[i].len() ==> group_free(
            #[trigger] st.stack[i][j],
        )
}

/// Whether every character class in the header holds plain characters only:
/// a class that itself contains a group character expands to patterns that
/// still show it.
pub open spec fn charsets_clean(s: Seq<char>) -> bool
    decreases s.len(),
{
    if s.len() == 0 {
        true
    } else if s.first() == '[' {
        let rest = s.drop_first();
        let j = find_or_len(rest, ']');
        if !(0 <= j && j < rest.len()) {
            true
        } else {
            (forall|k: int|
                0 <= k < j ==> #[trigger] rest[k] != '{' && rest[k] != '}' && rest[k] != '[')
                && charsets_clean(rest.skip(j + 1))
        }
    } else {
        charsets_clean(s.drop_first())
    }
}

proof fn lemma_flush_clean(st: ExpSt)
    requires
        state_clean(st),
    ensures
        spec_flush(st) matches Some(st1) ==> state_clean(st1),
{
    if st.stack.len() == 0 {
    } else if st.pending {
        if st.stack.len() >= 2 {
            let st1 = spec_flush(st).unwrap();
            let frags = st.stack.last();
            let parent = st.stack[st.stack.len() - 2];
            let prefix = if parent.len() > 0 {
                parent.last()
            } else {
                Seq::<char>::empty()
            };
            assert(group_free(prefix));
            assert forall|i: int, j: int|
                0 <= i < st1.stack.len() && 0 <= j < st1.stack[i].len() implies group_free(
                st1.stack[i][j],
            ) by {
                if i == st.stack.len() - 2 {
                    let parent1 = if parent.len() > 0 {
                        parent.drop_last()
                    } else {
                        parent
                    };
                    if j >= parent1.len() {
                        let joined = st1.stack[i][j];
                        let frag = frags[j - parent1.len()];
                        assert(group_free(frag));
                        assert forall|k: int| 0 <= k < joined.len() implies #[trigger] joined[k]
                            != '{' && joined[k] != '}' && joined[k] != '[' by {
                            if k < prefix.len() {
                                assert(joined[k] == prefix[k]);
                            } else if k < prefix.len() + frag.len() {
                                assert(joined[k] == frag[k - prefix.len()]);
                            } else {
                                assert(joined[k] == st.cur[k - prefix.len() - frag.len()]);
                            }
                        }
                    } else {
                        assert(st1.stack[i][j] == parent[j]);
                    }
                } else {
                    assert(st1.stack[i][j] == st.stack[i][j]);
                }
            }
        }
    } else {
        let st1 = spec_flush(st).unwrap();
        assert forall|i: int, j: int|
            0 <= i < st1.stack.len() && 0 <= j < st1.stack[i].len() implies group_free(
            st1.stack[i][j],
        ) by {
            if i == st.stack.len() - 1 && j == st.stack.last().len() {
                assert(st1.stack[i][j] == st.cur);
            } else {
                assert(st1.stack[i][j] == st.stack[i][j]);
            }
        }
    }
}

proof fn lemma_run_clean(s: Seq<char>, st: ExpSt)
    requires
        state_clean(st),
        charsets_clean(s),
    ensures
        spec_run(s, st) matches Some(res) ==> forall|j: int|
            0 <= j < res.len() ==> group_free(#[trigger] res[j]),
    decreases s.len(),
{
    lemma_flush_clean(st);
    if s.len() == 0 {
    } else {
        let c = s.first();
        if c == '{' {
            match spec_flush(st) {
                Some(st1) => {
                    let st2 = ExpSt {
                        stack: st1.stack.push(Seq::empty()),
                        cur: Seq::empty(),
                        pending: false,
                    };
                    assert(state_clean(st2));
                    lemma_run_clean(s.drop_first(), st2);
                },
                None => {},
            }
        } else if c == ',' {
            match spec_flush(st) {
                Some(st1) => {
                    lemma_run_clean(s.drop_first(), st1);
                },
                None => {},
            }
        } else if c == '}' {
            match spec_flush(st) {
                Some(st1) => {
                    let st2 = ExpSt { stack: st1.stack, cur: Seq::empty(), pending: true };
                    assert(state_clean(st2));
                    lemma_run_clean(s.drop_first(), st2);
                },
                None => {},
            }
        } else if c == '[' {
            match spec_flush(st) {
                Some(st1) => {
                    let rest = s.drop_first();
                    let j = find_or_len(rest, ']');
                    if 0 <= j && j < rest.len() {
                        let charset = Seq::new(j as nat, |k: int| seq![rest[k]]);
                        let st2 = ExpSt {
                            stack: st1.stack.push(charset),
                            cur: Seq::empty(),
                            pending: true,
                        };
                        assert forall|i2: int, j2: int|
                            0 <= i2 < st2.stack.len() && 0 <= j2 < st2.stack[i2].len()
                            implies group_free(#[trigger] st2.stack[i2][j2]) by {
                            if i2 == st2.stack.len() - 1 {
                                assert(st2.stack[i2][j2] == seq![rest[j2]]);
                                assert(rest[j2] != '{' && rest[j2] != '}' && rest[j2] != '[');
                            } else {
                                assert(st2.stack[i2][j2] == st1.stack[i2][j2]);
                            }
                        }
                        lemma_run_clean(rest.skip(j + 1), st2);
                    }
                },
                None => {},
            }
        } else {
            let st2 = ExpSt { stack: st.stack, cur: st.cur.push(c), pending: st.pending };
            assert forall|k: int| 0 <= k < st2.cur.len() implies #[trigger] st2.cur[k] != '{'
                && st2.cur[k] != '}' && st2.cur[k] != '[' by {
                if k < st.cur.len() {
                    assert(st2.cur[k] == st.cur[k]);
                } else {
                    assert(st2.cur[k] == c);
                }
            }
            assert(state_clean(st2));
            lemma_run_clean(s.drop_first(), st2);
        }
    }
}

proof fn lemma_filter_nonempty_clean(s: Seq<Seq<char>>)
    requires
        forall|j: int| 0 <= j < s.len() ==> group_free(#[trigger] s[j]),
    ensures
        forall|j: int| 0 <= j < filter_nonempty(s).len() ==> group_free(
            #[trigger] filter_nonempty(s)[j],
        ),
    decreases s.len(),
{
    if s.len() > 0 {
        assert(forall|j: int| 0 <= j < s.drop_last().len() ==> group_free(
            #[trigger] s.drop_last()[j],
        ));
        lemma_filter_nonempty_clean(s.drop_last());
        let f = filter_nonempty(s);
        let fd = filter_nonempty(s.drop_last());
        assert forall|j: int| 0 <= j < f.len() implies group_free(#[trigger] f[j]) by {
            if s.last().len() > 0 {
                assert(f == fd.push(s.last()));
                if j < fd.len() {
                    assert(f[j] == fd[j]);
                } else {
                    assert(f[j] == s.last());
                    assert(group_free(s[s.len() - 1]));
                }
            } else {
                assert(f == fd);
            }
        }
    }
}

/// A header whose character classes hold plain characters only expands to
/// patterns in which no `{`, `}` or `[` remains.
pub proof fn lemma_expand_no_group_chars(h: Seq<char>)
    requires
        charsets_clean(h),
    ensures
        forall|i: int| 0 <= i < spec_expand(h).len() ==> group_free(#[trigger] spec_expand(h)[i]),
{
    if !spec_deranged(h) {
        match spec_run(h, init_state()) {
            Some(frame) => {
                assert(state_clean(init_state()));
                lemma_run_clean(h, init_state());
                lemma_filter_nonempty_clean(frame);
            },
            None => {},
        }
    }
}

/// `s` with every path separator replaced by a dash, so that the name of a
/// synthesized language stays a single word.
pub open spec fn spec_replace_slash(s: Seq<char>) -> Seq<char> {
    Seq::new(s.len(), |i: int| if s[i] == '/' { '-' } else { s[i] })
}

/// The name given to a language synthesized for `lang`, of the given kind.
pub open spec fn spec_synthetic_name(kind: Seq<char>, lang: Seq<char>) -> Seq<char> {
    "ec2hx-"@ + kind + "-lang-"@ + spec_replace_slash(lang)
}

pub fn make_synthetic_lang_name(kind: &str, lang: &str) -> (r: String)
    ensures
        r@ == spec_synthetic_name(kind@, lang@),
{
    let n: usize = lang.unicode_len();
    let mut replaced = String::new();
    let mut i: usize = 0;
    while i < n
        invariant
            i <= n,
            n == lang@.len(),
            replaced@ =~= Seq::new(i as nat, |k: int| if lang@[k] == '/' {
                '-'
            } else {
                lang@[k]
            }),
        decreases n - i,
    {
        let c = lang.get_char(i);
        if c == '/' {
            proof {
                reveal_strlit("-");
            }
            replaced.append("-");
        } else {
            let piece = lang.substring_char(i, i + 1);
            proof {
                assert(piece@ =~= seq![lang@[i as int]]);
            }
            replaced.append(piece);
        }
        i = i + 1;
        proof {
            assert(replaced@ =~= Seq::new(i as nat, |k: int| if lang@[k] == '/' {
                '-'
            } else {
                lang@[k]
            }));
        }
    }
    let mut out = String::new();
    out.append("ec2hx-");
    out.append(kind);
    out.append("-lang-");
    out.append(replaced.as_str());
    proof {
        assert(replaced@ =~= spec_replace_slash(lang@));
        assert(out@ == spec_synthetic_name(kind@, lang@));
    }
    out
}

} // verus!
