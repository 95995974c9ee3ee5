//! ec2hx: translate EditorConfig directives into Helix editor
//! configuration.  Sections of the input are expanded into literal glob
//! patterns, matched against the language catalog, and their properties
//! merged under the editor's precedence rules; the result is the text of a
//! `config.toml`, the text of a `languages.toml`, and the mapping from each
//! synthesized path-glob language to the grammar it inherits.

use vstd::prelude::*;

pub mod emit;
pub mod expand;
pub mod fmt;
pub mod ini;
pub mod matcher;
pub mod model;
pub mod parse;
pub mod strmap;
pub mod text;
pub mod tomlio;

pub use emit::HxEditorCfg;
pub use ini::ec_input_well_formed;
pub use ini::EditorConfig;
pub use model::merge_languages;
pub use model::HelixLangCfg;
pub use model::LangCfg;

use crate::emit::{
    emit_block_or_empty, spec_block_or_empty, spec_config_toml, spec_hx_editor_from,
};
use crate::expand::{extract_langs_from_header, spec_expand};
use crate::ini::{ec_view, ec_well_formed, spec_parse_ec};
use crate::matcher::{apply_pattern, fallback_fts, spec_apply_pattern, spec_fallback_fts};
use crate::model::{
    hx_views, sec_view, spec_formatter_guard, spec_lang_cfg_default, spec_lang_cfg_from,
    spec_src_into, spec_src_is_some, spec_with_defaults, spec_with_hx_defaults, HelixLangCfgV,
    IndentStyle, Key, LangCfgV,
};
use crate::strmap::{map_view, spec_map_get, spec_map_insert, StrMap};
use crate::text::{str_eq, views_of};

verus! {

/// The fallback globs, with the plain-text extension always included.
pub open spec fn spec_fallback_globs(globs: Seq<Seq<char>>) -> Seq<Seq<char>> {
    if globs.contains("*.txt"@) {
        globs
    } else {
        globs.push("*.txt"@)
    }
}

/// The state accumulated while walking the sections in file order.
pub ghost struct PipeSt {
    pub map: Seq<(Seq<char>, LangCfgV)>,
    pub globs: Seq<(Seq<char>, Seq<char>)>,
    pub editor: emit::HxEditorCfg,
    pub global: LangCfgV,
}

pub open spec fn init_pipe_state() -> PipeSt {
    PipeSt {
        map: Seq::empty(),
        globs: Seq::empty(),
        editor: emit::HxEditorCfg {
            default_line_ending: None,
            insert_final_newline: None,
            max_line_length: None,
        },
        global: spec_lang_cfg_default(),
    }
}

/// The patterns of one section applied in order.
pub open spec fn spec_apply_patterns(
    langs: Seq<HelixLangCfgV>,
    fallback: Seq<Seq<char>>,
    map: Seq<(Seq<char>, LangCfgV)>,
    globs: Seq<(Seq<char>, Seq<char>)>,
    pats: Seq<Seq<char>>,
    sec_cfg: LangCfgV,
) -> (Seq<(Seq<char>, LangCfgV)>, Seq<(Seq<char>, Seq<char>)>)
    decreases pats.len(),
{
    if pats.len() == 0 {
        (map, globs)
    } else {
        let (m1, g1) = spec_apply_pattern(langs, fallback, map, globs, pats.first(), sec_cfg);
        spec_apply_patterns(langs, fallback, m1, g1, pats.drop_first(), sec_cfg)
    }
}

/// One section applied to the state: the global section sets the editor
/// settings and the global defaults; any other section is expanded and its
/// patterns matched, with the global defaults filling its gaps.
pub open spec fn spec_apply_section(
    langs: Seq<HelixLangCfgV>,
    fallback: Seq<Seq<char>>,
    st: PipeSt,
    header: Seq<char>,
    sec: Seq<(Key, Seq<char>)>,
) -> PipeSt {
    if header == "*"@ {
        PipeSt { editor: spec_hx_editor_from(sec), global: spec_lang_cfg_from(sec), ..st }
    } else {
        let sec_cfg = spec_with_defaults(spec_lang_cfg_from(sec), st.global);
        let (m, g) = spec_apply_patterns(
            langs,
            fallback,
            st.map,
            st.globs,
            spec_expand(header),
            sec_cfg,
        );
        PipeSt { map: m, globs: g, ..st }
    }
}

pub open spec fn spec_apply_sections(
    langs: Seq<HelixLangCfgV>,
    fallback: Seq<Seq<char>>,
    st: PipeSt,
    secs: Seq<(Seq<char>, Seq<(Key, Seq<char>)>)>,
) -> PipeSt
    decreases secs.len(),
{
    if secs.len() == 0 {
        st
    } else {
        spec_apply_sections(
            langs,
            fallback,
            spec_apply_section(langs, fallback, st, secs.first().0, secs.first().1),
            secs.drop_first(),
        )
    }
}

/// The global cascade: every catalog language the sections did not already
/// configure, and that a trigger makes eligible, receives the global
/// configuration, completed from its own catalog default.
pub open spec fn spec_global_map(
    langs: Seq<HelixLangCfgV>,
    map: Seq<(Seq<char>, LangCfgV)>,
    gmap: Seq<(Seq<char>, LangCfgV)>,
    g: LangCfgV,
    all_c: bool,
    tab_c: bool,
    wofmt_c: bool,
) -> Seq<(Seq<char>, LangCfgV)>
    decreases langs.len(),
{
    if langs.len() == 0 {
        gmap
    } else {
        let l = langs.first();
        let rest = langs.drop_first();
        if spec_map_get(map, l.name) is Some {
            spec_global_map(rest, map, gmap, g, all_c, tab_c, wofmt_c)
        } else if all_c || (tab_c && (l.indent matches Some((_, IndentStyle::Tab)))) || (wofmt_c
            && !l.has_formatter) {
            spec_global_map(
                rest,
                map,
                spec_map_insert(gmap, l.name, spec_global_entry_cfg(g, l)),
                g,
                all_c,
                tab_c,
                wofmt_c,
            )
        } else {
            spec_global_map(rest, map, gmap, g, all_c, tab_c, wofmt_c)
        }
    }
}

/// The configuration a catalog language receives from the global cascade:
/// the global settings, trimming suppressed when the language already has a
/// formatter, and the indent completed from the catalog default.
pub open spec fn spec_global_entry_cfg(g: LangCfgV, l: HelixLangCfgV) -> LangCfgV {
    let c1 = LangCfgV {
        trim_trailing_whitespace: spec_formatter_guard(g.trim_trailing_whitespace, l.has_formatter),
        ..g
    };
    let (sz, st2) = spec_with_hx_defaults(c1.size, c1.style, c1.tab_width, l.indent);
    LangCfgV { size: sz, style: st2, ..c1 }
}

/// The name of the synthetic language that carries the global settings for
/// files no catalog language claims.
pub open spec fn spec_global_fallback_name() -> Seq<char> {
    "ec2hx-global-fallback-plain-text"@
}

/// The blocks of the accumulated languages, in key order.
pub open spec fn spec_blocks_text(m: Seq<(Seq<char>, LangCfgV)>, rulers: bool) -> Seq<char>
    decreases m.len(),
{
    if m.len() == 0 {
        Seq::empty()
    } else {
        spec_blocks_text(m.drop_last(), rulers) + spec_block_or_empty(
            m.last().0,
            m.last().1,
            rulers,
        )
    }
}

/// What `ec2hx` computes, as one value: the `config.toml` text, the
/// `languages.toml` text, and the synthesized-name-to-grammar mapping, in
/// name order.
pub open spec fn spec_ec2hx(
    langs: Seq<HelixLangCfgV>,
    input: Seq<char>,
    fallback0: Seq<Seq<char>>,
    rulers: bool,
) -> (Seq<char>, Seq<char>, Seq<(Seq<char>, Seq<char>)>) {
    let fallback = spec_fallback_globs(fallback0);
    let secs = spec_parse_ec(input).drop_first();
    let st = spec_apply_sections(langs, fallback, init_pipe_state(), secs);
    let tab_c = spec_src_is_some(st.global.tab_width);
    let wofmt_c = spec_src_into(st.global.trim_trailing_whitespace) == Some(true);
    let all_c = spec_src_is_some(st.global.size) || spec_src_is_some(st.global.style);
    let languages_toml = if all_c || tab_c || wofmt_c {
        let gmap = spec_global_map(langs, st.map, Seq::empty(), st.global, all_c, tab_c, wofmt_c);
        let gall = spec_map_insert(
            gmap,
            spec_global_fallback_name(),
            LangCfgV { file_types: Some(spec_fallback_fts(fallback)), ..st.global },
        );
        "# language-specific settings:\n\n"@ + spec_blocks_text(st.map, rulers)
            + "################################################################################\n\n# global settings, applied equally to all remaining languages:\n\n"@
            + spec_blocks_text(gall, rulers)
    } else {
        spec_blocks_text(st.map, rulers)
    };
    (spec_config_toml(st.editor, rulers), languages_toml, st.globs)
}

proof fn lemma_editor_mll_bounded(sec: Seq<(Key, Seq<char>)>)
    ensures
        spec_hx_editor_from(sec).max_line_length matches Some(m) ==> m < usize::MAX,
{
}

fn blocks_string(map: &StrMap<LangCfg>, rulers: bool) -> (r: String)
    ensures
        r@ == spec_blocks_text(map.view_seq(), rulers),
{
    let ghost mv = map.view_seq();
    let mut out = String::new();
    let mut k: usize = 0;
    proof {
        assert(mv.take(0) =~= Seq::<(Seq<char>, LangCfgV)>::empty());
        assert(out@ =~= spec_blocks_text(mv.take(0), rulers));
    }
    while k < map.entries.len()
        invariant
            k <= map.entries@.len(),
            mv == map.view_seq(),
            out@ == spec_blocks_text(mv.take(k as int), rulers),
        decreases map.entries@.len() - k,
    {
        let block = emit_block_or_empty(map.entries[k].0.as_str(), &map.entries[k].1, rulers);
        out.append(block.as_str());
        k = k + 1;
        proof {
            assert(mv.take(k as int).drop_last() =~= mv.take(k - 1));
            assert(mv.take(k as int).last() == mv[k - 1]);
            assert(mv[k - 1] == (map.entries@[k - 1].0@, map.entries@[k - 1].1@));
            assert(out@ =~= spec_blocks_text(mv.take(k as int), rulers));
        }
    }
    proof {
        assert(mv.take(map.entries@.len() as int) =~= mv);
    }
    out
}

fn contains_str(v: &Vec<String>, s: &str) -> (r: bool)
    ensures
        r == views_of(v@).contains(s@),
{
    let mut i: usize = 0;
    while i < v.len()
        invariant
            i <= v@.len(),
            forall|j: int| 0 <= j < i ==> views_of(v@)[j] != s@,
        decreases v@.len() - i,
    {
        if str_eq(v[i].as_str(), s) {
            proof {
                assert(views_of(v@)[i as int] == s@);
            }
            return true;
        }
        i = i + 1;
    }
    proof {
        if views_of(v@).contains(s@) {
            let j = choose|j: int| 0 <= j < views_of(v@).len() && views_of(v@)[j] == s@;
            assert(false);
        }
    }
    false
}

/// Translate an EditorConfig document against the language catalog.  The
/// returned triple holds the `config.toml` text, the `languages.toml` text,
/// and the synthesized-name-to-grammar mapping in name order.
pub fn ec2hx(
    languages: &[HelixLangCfg],
    input: &str,
    fallback_globs: Vec<String>,
    rulers: bool,
) -> (r: (String, String, Vec<(String, String)>))
    requires
        ec_well_formed(input@),
        forall|k: int| 0 <= k < languages@.len() ==> (#[trigger] languages@[k])@.file_types
            is Some,
    ensures
        ({
            let out = spec_ec2hx(hx_views(languages@), input@, views_of(fallback_globs@), rulers);
            r.0@ == out.0 && r.1@ == out.1 && map_view(r.2@) == out.2
        }),
{
    let ghost lv = hx_views(languages@);
    let ghost fb0 = views_of(fallback_globs@);
    let mut fallback = fallback_globs;
    if !contains_str(&fallback, "*.txt") {
        fallback.push("*.txt".to_owned());
        proof {
            assert(views_of(fallback@) =~= fb0.push("*.txt"@));
        }
    }
    let fallback = fallback;
    let ghost fbv = views_of(fallback@);
    proof {
        assert(fbv == spec_fallback_globs(fb0));
    }
    let editorconfig = EditorConfig::from(input);
    let sections = editorconfig.sections;
    let ghost secs = spec_parse_ec(input@).drop_first();
    proof {
        assert(ec_view(sections@).drop_first() =~= secs);
    }
    let mut hx_editor_cfg = HxEditorCfg::new();
    let mut global_cfg = LangCfg::default();
    let mut map: StrMap<LangCfg> = StrMap::new();
    let mut globs: StrMap<String> = StrMap::new();
    let mut si: usize = 1;
    proof {
        assert(PipeSt {
            map: map.view_seq(),
            globs: globs.view_seq(),
            editor: hx_editor_cfg,
            global: global_cfg@,
        } == init_pipe_state());
        assert(secs.skip(0) =~= secs);
    }
    while si < sections.len()
        invariant
            1 <= si,
            si <= sections@.len() || si == 1,
            sections@.len() >= 1,
            secs == ec_view(sections@).drop_first(),
            ec_well_formed(input@),
            forall|k: int| 0 <= k < languages@.len() ==> (#[trigger] languages@[k])@.file_types
                is Some,
            lv == hx_views(languages@),
            fbv == views_of(fallback@),
            map.wf(),
            globs.wf(),
            hx_editor_cfg.max_line_length matches Some(m) ==> m < usize::MAX,
            spec_apply_sections(
                lv,
                fbv,
                PipeSt {
                    map: map.view_seq(),
                    globs: globs.view_seq(),
                    editor: hx_editor_cfg,
                    global: global_cfg@,
                },
                secs.skip(si - 1),
            ) == spec_apply_sections(lv, fbv, init_pipe_state(), secs),
        decreases sections@.len() - si,
    {
        let ghost rem = secs.skip(si - 1);
        let ghost st_pre = PipeSt {
            map: map.view_seq(),
            globs: globs.view_seq(),
            editor: hx_editor_cfg,
            global: global_cfg@,
        };
        proof {
            assert(rem.first() == secs[si - 1]);
            assert(secs[si - 1] == ec_view(sections@)[si as int]);
            assert(rem.drop_first() =~= secs.skip(si as int));
        }
        let header = &sections[si].0;
        let sec = &sections[si].1;
        proof {
            assert(ec_view(sections@)[si as int] == (header@, sec_view(sec@)));
        }
        if str_eq(header.as_str(), "*") {
            hx_editor_cfg = HxEditorCfg::from(sec);
            global_cfg = LangCfg::from(sec);
            proof {
                lemma_editor_mll_bounded(sec_view(sec@));
                assert(PipeSt {
                    map: map.view_seq(),
                    globs: globs.view_seq(),
                    editor: hx_editor_cfg,
                    global: global_cfg@,
                } == spec_apply_section(lv, fbv, st_pre, rem.first().0, rem.first().1));
            }
        } else {
            let sec_cfg = {
                let mut c = LangCfg::from(sec);
                c.with_defaults_from(&global_cfg);
                c
            };
            let pats = extract_langs_from_header(header.as_str());
            let ghost pv = views_of(pats@);
            let mut p: usize = 0;
            proof {
                assert(pv.skip(0) =~= pv);
            }
            while p < pats.len()
                invariant
                    p <= pats@.len(),
                    pv == views_of(pats@),
                    lv == hx_views(languages@),
                    fbv == views_of(fallback@),
                    forall|k: int|
                        0 <= k < languages@.len() ==> (#[trigger] languages@[k])@.file_types
                            is Some,
                    map.wf(),
                    globs.wf(),
                    spec_apply_patterns(
                        lv,
                        fbv,
                        map.view_seq(),
                        globs.view_seq(),
                        pv.skip(p as int),
                        sec_cfg@,
                    ) == spec_apply_patterns(lv, fbv, st_pre.map, st_pre.globs, pv, sec_cfg@),
                decreases pats@.len() - p,
            {
                let ghost prem = pv.skip(p as int);
                let ghost m0 = map.view_seq();
                let ghost g0 = globs.view_seq();
                proof {
                    assert(prem.first() == pv[p as int]);
                    assert(prem.drop_first() =~= pv.skip(p + 1));
                }
                apply_pattern(
                    languages,
                    &fallback,
                    &mut map,
                    &mut globs,
                    pats[p].as_str(),
                    &sec_cfg,
                );
                proof {
                    assert((map.view_seq(), globs.view_seq()) == spec_apply_pattern(
                        lv,
                        fbv,
                        m0,
                        g0,
                        prem.first(),
                        sec_cfg@,
                    ));
                    assert(spec_apply_patterns(lv, fbv, m0, g0, prem, sec_cfg@)
                        == spec_apply_patterns(
                        lv,
                        fbv,
                        map.view_seq(),
                        globs.view_seq(),
                        prem.drop_first(),
                        sec_cfg@,
                    ));
                }
                p = p + 1;
            }
            proof {
                assert(pv.skip(pats@.len() as int).len() == 0);
                assert(PipeSt {
                    map: map.view_seq(),
                    globs: globs.view_seq(),
                    editor: hx_editor_cfg,
                    global: global_cfg@,
                } == spec_apply_section(lv, fbv, st_pre, rem.first().0, rem.first().1));
            }
        }
        si = si + 1;
    }
    proof {
        assert(secs.skip(sections@.len() - 1) =~= Seq::<
            (Seq<char>, Seq<(Key, Seq<char>)>),
        >::empty());
    }
    let ghost st = spec_apply_sections(lv, fbv, init_pipe_state(), secs);
    proof {
        assert(st == PipeSt {
            map: map.view_seq(),
            globs: globs.view_seq(),
            editor: hx_editor_cfg,
            global: global_cfg@,
        });
    }
    let tab_c = global_cfg.tab_width.is_some();
    let wofmt_c = matches!(global_cfg.trim_trailing_whitespace.into(), Some(true));
    let all_c = global_cfg.size.is_some() || global_cfg.style.is_some();
    let languages_toml: String = if all_c || tab_c || wofmt_c {
        let mut gmap: StrMap<LangCfg> = StrMap::new();
        let mut i: usize = 0;
        proof {
            assert(lv.skip(0) =~= lv);
            assert(gmap.view_seq() =~= Seq::<(Seq<char>, LangCfgV)>::empty());
        }
        while i < languages.len()
            invariant
                i <= languages@.len(),
                lv == hx_views(languages@),
                gmap.wf(),
                map.wf(),
                fbv == views_of(fallback@),
                map.view_seq() == st.map,
                globs.view_seq() == st.globs,
                global_cfg@ == st.global,
                hx_editor_cfg == st.editor,
                spec_global_map(
                    lv.skip(i as int),
                    map.view_seq(),
                    gmap.view_seq(),
                    global_cfg@,
                    all_c,
                    tab_c,
                    wofmt_c,
                ) == spec_global_map(
                    lv,
                    map.view_seq(),
                    Seq::empty(),
                    global_cfg@,
                    all_c,
                    tab_c,
                    wofmt_c,
                ),
            decreases languages@.len() - i,
        {
            let ghost grem = lv.skip(i as int);
            proof {
                assert(grem.first() == lv[i as int]);
                assert(grem.drop_first() =~= lv.skip(i + 1));
            }
            let lang = &languages[i];
            if !map.contains_key(lang.name.as_str()) {
                let tab_hit = tab_c && matches!(lang.indent, Some((_, IndentStyle::Tab)));
                let wofmt_hit = wofmt_c && !lang.has_formatter;
                if all_c || tab_hit || wofmt_hit {
                    let mut cfg = global_cfg.clone();
                    cfg.apply_formatter_guard(lang.has_formatter);
                    cfg.with_defaults_from_hx_config(lang);
                    gmap.insert(lang.name.clone(), cfg);
                }
            }
            i = i + 1;
        }
        proof {
            assert(lv.skip(languages@.len() as int).len() == 0);
        }
        let fb_fts = fallback_fts(&fallback);
        let mut gfb = global_cfg.clone();
        gfb.file_types = Some(fb_fts);
        gmap.insert("ec2hx-global-fallback-plain-text".to_owned(), gfb);
        let mut out = String::new();
        out.append("# language-specific settings:\n\n");
        let specific = blocks_string(&map, rulers);
        out.append(specific.as_str());
        out.append(
            "################################################################################\n\n# global settings, applied equally to all remaining languages:\n\n",
        );
        let global_blocks = blocks_string(&gmap, rulers);
        out.append(global_blocks.as_str());
        out
    } else {
        blocks_string(&map, rulers)
    };
    let config_toml = hx_editor_cfg.to_config_toml(rulers);
    let glob_entries = globs.into_entries();
    (config_toml, languages_toml, glob_entries)
}

} // verus!

verus! {

use crate::model::spec_indent;
use crate::strmap::lemma_map_get_insert;

/// Whether every entry of the map resolves to exactly the indent
/// `(stv, sz)`.
pub open spec fn all_entries_indent(
    m: Seq<(Seq<char>, LangCfgV)>,
    stv: IndentStyle,
    sz: usize,
) -> bool {
    forall|q: Seq<char>|
        match #[trigger] spec_map_get(m, q) {
            Some(cfg) => spec_indent(cfg.size, cfg.style, cfg.tab_width) == Some((stv, sz)),
            None => true,
        }
}

/// A global section that sets both an indent style and size passes exactly
/// that indent to every cascaded language, whatever the catalog default.
proof fn lemma_global_entry_indent(g: LangCfgV, l: HelixLangCfgV, sz: usize, stv: IndentStyle)
    requires
        spec_src_into(g.size) == Some(sz),
        spec_src_into(g.style) == Some(stv),
    ensures
        ({
            let c = spec_global_entry_cfg(g, l);
            spec_indent(c.size, c.style, c.tab_width) == Some((stv, sz))
        }),
{
}

proof fn lemma_global_map_keys(
    langs: Seq<HelixLangCfgV>,
    map: Seq<(Seq<char>, LangCfgV)>,
    gmap: Seq<(Seq<char>, LangCfgV)>,
    g: LangCfgV,
    tab_c: bool,
    wofmt_c: bool,
)
    ensures
        ({
            let r = spec_global_map(langs, map, gmap, g, true, tab_c, wofmt_c);
            (forall|q: Seq<char>|
                spec_map_get(gmap, q) is Some ==> (#[trigger] spec_map_get(r, q)) is Some)
                && (forall|i: int|
                0 <= i < langs.len() && spec_map_get(map, (#[trigger] langs[i]).name) is None
                    ==> spec_map_get(r, langs[i].name) is Some)
        }),
    decreases langs.len(),
{
    let r = spec_global_map(langs, map, gmap, g, true, tab_c, wofmt_c);
    if langs.len() > 0 {
        let l = langs.first();
        let rest = langs.drop_first();
        if spec_map_get(map, l.name) is Some {
            lemma_global_map_keys(rest, map, gmap, g, tab_c, wofmt_c);
            assert forall|i: int|
                0 <= i < langs.len() && spec_map_get(map, (#[trigger] langs[i]).name) is None
                implies spec_map_get(r, langs[i].name) is Some by {
                assert(i > 0);
                assert(langs[i] == rest[i - 1]);
            }
        } else {
            let gmap1 = spec_map_insert(gmap, l.name, spec_global_entry_cfg(g, l));
            lemma_global_map_keys(rest, map, gmap1, g, tab_c, wofmt_c);
            assert forall|q: Seq<char>| spec_map_get(gmap, q) is Some implies (
            #[trigger] spec_map_get(r, q)) is Some by {
                lemma_map_get_insert(gmap, l.name, spec_global_entry_cfg(g, l), q);
            }
            assert forall|i: int|
                0 <= i < langs.len() && spec_map_get(map, (#[trigger] langs[i]).name) is None
                implies spec_map_get(r, langs[i].name) is Some by {
                if i == 0 {
                    lemma_map_get_insert(gmap, l.name, spec_global_entry_cfg(g, l), l.name);
                    assert(spec_map_get(gmap1, l.name) is Some);
                } else {
                    assert(langs[i] == rest[i - 1]);
                }
            }
        }
    }
}

proof fn lemma_global_map_values(
    langs: Seq<HelixLangCfgV>,
    map: Seq<(Seq<char>, LangCfgV)>,
    gmap: Seq<(Seq<char>, LangCfgV)>,
    g: LangCfgV,
    tab_c: bool,
    wofmt_c: bool,
    sz: usize,
    stv: IndentStyle,
)
    requires
        spec_src_into(g.size) == Some(sz),
        spec_src_into(g.style) == Some(stv),
        all_entries_indent(gmap, stv, sz),
    ensures
        all_entries_indent(spec_global_map(langs, map, gmap, g, true, tab_c, wofmt_c), stv, sz),
    decreases langs.len(),
{
    if langs.len() > 0 {
        let l = langs.first();
        let rest = langs.drop_first();
        if spec_map_get(map, l.name) is Some {
            lemma_global_map_values(rest, map, gmap, g, tab_c, wofmt_c, sz, stv);
        } else {
            let v = spec_global_entry_cfg(g, l);
            lemma_global_entry_indent(g, l, sz, stv);
            let gmap1 = spec_map_insert(gmap, l.name, v);
            assert forall|q: Seq<char>| true implies (match #[trigger] spec_map_get(gmap1, q) {
                Some(cfg) => spec_indent(cfg.size, cfg.style, cfg.tab_width) == Some((stv, sz)),
                None => true,
            }) by {
                lemma_map_get_insert(gmap, l.name, v, q);
            }
            lemma_global_map_values(rest, map, gmap1, g, tab_c, wofmt_c, sz, stv);
        }
    }
}

/// The global cascade: when the global section sets an indent size or
/// style, every catalog language not already configured by a section has an
/// entry in the cascaded map; the synthetic plain-text fallback language is
/// always present, bound to the fallback globs with the global settings;
/// and when the global section sets both style and size, every cascaded
/// entry resolves to exactly that indent, whatever the catalog said.
pub proof fn lemma_global_cascade(
    langs: Seq<HelixLangCfgV>,
    map: Seq<(Seq<char>, LangCfgV)>,
    g: LangCfgV,
    tab_c: bool,
    wofmt_c: bool,
    fallback: Seq<Seq<char>>,
)
    requires
        spec_src_is_some(g.size) || spec_src_is_some(g.style),
    ensures
        ({
            let gmap = spec_global_map(langs, map, Seq::empty(), g, true, tab_c, wofmt_c);
            let gall = spec_map_insert(
                gmap,
                spec_global_fallback_name(),
                LangCfgV { file_types: Some(spec_fallback_fts(fallback)), ..g },
            );
            (forall|i: int|
                0 <= i < langs.len() && spec_map_get(map, (#[trigger] langs[i]).name) is None
                    ==> spec_map_get(gall, langs[i].name) is Some) && spec_map_get(
                gall,
                spec_global_fallback_name(),
            ) == Some(LangCfgV { file_types: Some(spec_fallback_fts(fallback)), ..g }) && ((
            spec_src_into(g.size) is Some && spec_src_into(g.style) is Some) ==> all_entries_indent(
                gmap,
                spec_src_into(g.style).unwrap(),
                spec_src_into(g.size).unwrap(),
            ))
        }),
{
    let gmap = spec_global_map(langs, map, Seq::empty(), g, true, tab_c, wofmt_c);
    let fbcfg = LangCfgV { file_types: Some(spec_fallback_fts(fallback)), ..g };
    let gall = spec_map_insert(gmap, spec_global_fallback_name(), fbcfg);
    lemma_global_map_keys(langs, map, Seq::empty(), g, tab_c, wofmt_c);
    assert forall|i: int|
        0 <= i < langs.len() && spec_map_get(map, (#[trigger] langs[i]).name) is None
        implies spec_map_get(gall, langs[i].name) is Some by {
        lemma_map_get_insert(gmap, spec_global_fallback_name(), fbcfg, langs[i].name);
    }
    lemma_map_get_insert(gmap, spec_global_fallback_name(), fbcfg, spec_global_fallback_name());
    if spec_src_into(g.size) is Some && spec_src_into(g.style) is Some {
        let sz = spec_src_into(g.size).unwrap();
        let stv = spec_src_into(g.style).unwrap();
        assert(all_entries_indent(Seq::<(Seq<char>, LangCfgV)>::empty(), stv, sz));
        lemma_global_map_values(langs, map, Seq::empty(), g, tab_c, wofmt_c, sz, stv);
    }
}

} // verus!
