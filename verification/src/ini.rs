//! Parsing the EditorConfig document: lines become sections of key/value
//! pairs.  The first section is the preamble before any header; unknown
//! keys are kept under a catch-all key and dropped by the consumers, and
//! the non-standard empty and `ignore` values are treated as absent.

use vstd::prelude::*;

use crate::model::{spec_key_from, sec_view, Key};
use crate::text::{
    find_char, lemma_find_none, spec_find, spec_lines, spec_trim, split_lines, str_eq, trim,
    views_of,
};

verus! {

/// A parsed EditorConfig document: ordered sections, each a header and its
/// key/value pairs; the first section is the preamble.
pub struct EditorConfig {
    pub sections: Vec<(String, Vec<(Key, String)>)>,
}

/// The views of the parsed sections.
pub open spec fn ec_view(s: Seq<(String, Vec<(Key, String)>)>) -> Seq<
    (Seq<char>, Seq<(Key, Seq<char>)>),
> {
    Seq::new(s.len(), |i: int| (s[i].0@, sec_view(s[i].1@)))
}

/// Whether a line can be parsed: blank, comment, section header, or a
/// key/value pair with an equals sign.  A line with none of these has no
/// meaning in the format.
pub open spec fn line_well_formed(line: Seq<char>) -> bool {
    let t = spec_trim(line);
    t.len() == 0 || t[0] == ';' || t[0] == '#' || (t[0] == '[' && t.last() == ']')
        || t.contains('=')
}

/// Whether the whole input parses without a malformed line.
pub open spec fn ec_well_formed(s: Seq<char>) -> bool {
    forall|i: int| 0 <= i < spec_lines(s).len() ==> line_well_formed(#[trigger] spec_lines(s)[i])
}

/// One line applied to the parser state.
pub open spec fn spec_ec_step(
    line: Seq<char>,
    header: Seq<char>,
    sec: Seq<(Key, Seq<char>)>,
    done: Seq<(Seq<char>, Seq<(Key, Seq<char>)>)>,
) -> (Seq<char>, Seq<(Key, Seq<char>)>, Seq<(Seq<char>, Seq<(Key, Seq<char>)>)>) {
    let t = spec_trim(line);
    if t.len() == 0 || t[0] == ';' || t[0] == '#' {
        (header, sec, done)
    } else if t[0] == '[' && t.last() == ']' {
        (t.subrange(1, t.len() - 1), Seq::empty(), done.push((header, sec)))
    } else {
        match spec_find(t, '=') {
            Some(e) => {
                let k = spec_key_from(spec_trim(t.subrange(0, e)));
                let v = spec_trim(t.subrange(e + 1, t.len() as int));
                if v.len() == 0 || v == "ignore"@ {
                    (header, sec, done)
                } else {
                    (header, sec.push((k, v)), done)
                }
            },
            None => (header, sec, done),
        }
    }
}

/// The remaining lines applied to the parser state; the section being
/// collected is closed at the end.
pub open spec fn spec_parse_lines(
    lines: Seq<Seq<char>>,
    header: Seq<char>,
    sec: Seq<(Key, Seq<char>)>,
    done: Seq<(Seq<char>, Seq<(Key, Seq<char>)>)>,
) -> Seq<(Seq<char>, Seq<(Key, Seq<char>)>)>
    decreases lines.len(),
{
    if lines.len() == 0 {
        done.push((header, sec))
    } else {
        let (h1, s1, d1) = spec_ec_step(lines.first(), header, sec, done);
        spec_parse_lines(lines.drop_first(), h1, s1, d1)
    }
}

/// The sections the input denotes.
pub open spec fn spec_parse_ec(s: Seq<char>) -> Seq<(Seq<char>, Seq<(Key, Seq<char>)>)> {
    spec_parse_lines(spec_lines(s), Seq::empty(), Seq::empty(), Seq::empty())
}

proof fn lemma_parse_lines_len(
    lines: Seq<Seq<char>>,
    header: Seq<char>,
    sec: Seq<(Key, Seq<char>)>,
    done: Seq<(Seq<char>, Seq<(Key, Seq<char>)>)>,
)
    ensures
        spec_parse_lines(lines, header, sec, done).len() > done.len(),
    decreases lines.len(),
{
    if lines.len() > 0 {
        let (h1, s1, d1) = spec_ec_step(lines.first(), header, sec, done);
        lemma_parse_lines_len(lines.drop_first(), h1, s1, d1);
        assert(d1.len() >= done.len());
    }
}

impl EditorConfig {
    /// Parse the input into sections.  Lines that are not blank, comments,
    /// headers or key/value pairs have no parse; the caller checks with
    /// `ec_input_well_formed` first.
    pub fn from(input: &str) -> (r: EditorConfig)
        requires
            ec_well_formed(input@),
        ensures
            ec_view(r.sections@) == spec_parse_ec(input@),
            r.sections@.len() >= 1,
    {
        let lines = split_lines(input);
        let ghost lv = views_of(lines@);
        let mut header = String::new();
        let mut sec: Vec<(Key, String)> = Vec::new();
        let mut done: Vec<(String, Vec<(Key, String)>)> = Vec::new();
        let mut i: usize = 0;
        proof {
            assert(lv.skip(0) =~= lv);
            assert(sec_view(sec@) =~= Seq::<(Key, Seq<char>)>::empty());
            assert(ec_view(done@) =~= Seq::<(Seq<char>, Seq<(Key, Seq<char>)>)>::empty());
        }
        while i < lines.len()
            invariant
                i <= lines@.len(),
                lv == views_of(lines@),
                ec_well_formed(input@),
                lv == spec_lines(input@),
                spec_parse_lines(
                    lv.skip(i as int),
                    header@,
                    sec_view(sec@),
                    ec_view(done@),
                ) == spec_parse_ec(input@),
            decreases lines@.len() - i,
        {
            let ghost rem = lv.skip(i as int);
            proof {
                assert(rem.first() == lv[i as int]);
                assert(rem.drop_first() =~= lv.skip(i + 1));
                assert(line_well_formed(lv[i as int]));
            }
            let t = trim(lines[i].as_str());
            let tn: usize = t.unicode_len();
            let ghost step = spec_ec_step(lv[i as int], header@, sec_view(sec@), ec_view(done@));
            if tn == 0 {
            } else {
                let c0 = t.get_char(0);
                if c0 == ';' || c0 == '#' {
                } else if c0 == '[' && t.get_char(tn - 1) == ']' {
                    let h = t.substring_char(1, tn - 1);
                    proof {
                        assert(h@ =~= t@.subrange(1, t@.len() - 1));
                    }
                    let ghost closed = (header@, sec_view(sec@));
                    let closed_header = header;
                    let closed_sec = sec;
                    header = h.to_owned();
                    sec = Vec::new();
                    let ghost before = ec_view(done@);
                    done.push((closed_header, closed_sec));
                    proof {
                        assert(sec_view(sec@) =~= Seq::<(Key, Seq<char>)>::empty());
                        assert(ec_view(done@) =~= before.push(closed));
                    }
                } else {
                    match find_char(t, '=') {
                        Some(e) => {
                            let kpart = trim(t.substring_char(0, e));
                            let vpart = trim(t.substring_char(e + 1, tn));
                            proof {
                                assert(t@.subrange(0, e as int) =~= t@.subrange(0, e as int));
                                assert(kpart@ == spec_trim(t@.subrange(0, e as int)));
                                assert(vpart@ == spec_trim(t@.subrange(e + 1, t@.len() as int)));
                            }
                            let k = Key::from(kpart);
                            if vpart.unicode_len() == 0 || str_eq(vpart, "ignore") {
                            } else {
                                let ghost before = sec_view(sec@);
                                sec.push((k, vpart.to_owned()));
                                proof {
                                    assert(sec_view(sec@) =~= before.push((k, vpart@)));
                                }
                            }
                        },
                        None => {
                            proof {
                                lemma_find_none(t@, '=');
                                assert(!t@.contains('='));
                                assert(false);
                            }
                        },
                    }
                }
            }
            i = i + 1;
        }
        proof {
            assert(lv.skip(lines@.len() as int).len() == 0);
        }
        let ghost before = ec_view(done@);
        done.push((header, sec));
        proof {
            assert(ec_view(done@) =~= before.push((header@, sec_view(sec@))));
            lemma_parse_lines_len(lv, Seq::empty(), Seq::empty(), Seq::empty());
        }
        EditorConfig { sections: done }
    }
}

/// Whether every line of the input can be parsed; what `EditorConfig::from`
/// requires, checked ahead of the call.
pub fn ec_input_well_formed(input: &str) -> (r: bool)
    ensures
        r == ec_well_formed(input@),
{
    let lines = split_lines(input);
    let ghost lv = views_of(lines@);
    let mut i: usize = 0;
    while i < lines.len()
        invariant
            i <= lines@.len(),
            lv == views_of(lines@),
            lv == spec_lines(input@),
            forall|j: int| 0 <= j < i ==> line_well_formed(#[trigger] lv[j]),
        decreases lines@.len() - i,
    {
        let t = trim(lines[i].as_str());
        let tn: usize = t.unicode_len();
        let mut ok = false;
        if tn == 0 {
            ok = true;
        } else {
            let c0 = t.get_char(0);
            if c0 == ';' || c0 == '#' {
                ok = true;
            } else if c0 == '[' && t.get_char(tn - 1) == ']' {
                ok = true;
            } else {
                match find_char(t, '=') {
                    Some(e) => {
                        proof {
                            assert(t@[e as int] == '=');
                        }
                        ok = true;
                    },
                    None => {
                        proof {
                            lemma_find_none(t@, '=');
                        }
                    },
                }
            }
        }
        if !ok {
            proof {
                assert(!line_well_formed(lv[i as int]));
            }
            return false;
        }
        i = i + 1;
    }
    true
}

} // verus!
