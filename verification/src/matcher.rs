//! Pattern-to-language matching: each expanded pattern is classified (a
//! path glob over everything, a direct hit on a catalog language, a
//! path-confined hit needing a synthesized identity, or no match at all)
//! and the section's configuration is applied to the right bucket.

use vstd::prelude::*;

use crate::expand::{make_synthetic_lang_name, spec_synthetic_name};
use crate::model::{
    fts_view, spec_formatter_guard, spec_with_defaults, spec_with_hx_defaults, FileType, FileTypeV,
    HelixLangCfg, HelixLangCfgV, LangCfg, LangCfgV,
};
use crate::strmap::{spec_map_get, spec_map_insert, StrMap};
use crate::text::{
    contains_char, contains_pair, has_pair, has_prefix, rfind_char, spec_has_prefix, spec_rfind,
    str_eq, views_of,
};

verus! {

/// Whether the pattern carries glob syntax beyond a bare `*.ext`: a
/// directory separator, a double star, or a single-character wildcard.
pub open spec fn spec_has_glob_char(l: Seq<char>) -> bool {
    l.contains('/') || has_pair(l, '*', '*') || l.contains('?')
}

/// A pattern like a doubled-star extension glob, which matches just what
/// the plain extension glob would: it is treated as the extension itself
/// rather than as a path glob.
pub open spec fn spec_stupid_ext_glob(l: Seq<char>) -> bool {
    spec_has_prefix(l, "**."@) && !spec_has_glob_char(l.skip(3))
}

pub open spec fn spec_dirname0(l: Seq<char>) -> Seq<char> {
    match spec_rfind(l, '/') {
        Some(i) => l.take(i),
        None => Seq::empty(),
    }
}

pub open spec fn spec_basename0(l: Seq<char>) -> Seq<char> {
    match spec_rfind(l, '/') {
        Some(i) => l.skip(i + 1),
        None => l,
    }
}

/// The directory part, after simplifying a leading doubled star of the
/// basename into the directory: `dir/**.ext` is read as `dir/**` and
/// `*.ext`.
pub open spec fn spec_dirname(l: Seq<char>) -> Seq<char> {
    if spec_has_prefix(spec_basename0(l), "**"@) {
        spec_dirname0(l) + "/**"@
    } else {
        spec_dirname0(l)
    }
}

pub open spec fn spec_basename(l: Seq<char>) -> Seq<char> {
    if spec_has_prefix(spec_basename0(l), "**"@) {
        spec_basename0(l).skip(1)
    } else {
        spec_basename0(l)
    }
}

/// Whether the basename says more than a bare extension glob: a name like
/// a doubled extension must not silently override the blanket rule for the
/// plain extension.
pub open spec fn spec_more_than_ext(b: Seq<char>) -> bool {
    match spec_rfind(b, '.') {
        Some(i) => b.take(i) != "*"@,
        None => false,
    }
}

/// Whether the pattern needs a synthesized identity confined to its glob,
/// rather than overriding a catalog language wholesale.
pub open spec fn spec_is_path_glob(l: Seq<char>) -> bool {
    (!spec_stupid_ext_glob(l) && spec_has_glob_char(l)) || spec_more_than_ext(spec_basename(l))
}

/// The extension the basename asks about.
pub open spec fn spec_ext(b: Seq<char>) -> Seq<char> {
    match spec_rfind(b, '.') {
        Some(i) => b.skip(i + 1),
        None => b,
    }
}

/// How one expanded pattern is read.
pub struct PatternInfo {
    pub dirname: String,
    pub basename: String,
    pub ext: String,
    pub is_path_glob: bool,
}

pub fn classify_pattern(lang: &str) -> (r: PatternInfo)
    ensures
        r.dirname@ == spec_dirname(lang@),
        r.basename@ == spec_basename(lang@),
        r.ext@ == spec_ext(spec_basename(lang@)),
        r.is_path_glob == spec_is_path_glob(lang@),
{
    proof {
        reveal_strlit("**");
        reveal_strlit("**.");
        reveal_strlit("/**");
        reveal_strlit("*");
    }
    let n: usize = lang.unicode_len();
    let (dir0, base0) = match rfind_char(lang, '/') {
        Some(i) => (lang.substring_char(0, i).to_owned(), lang.substring_char(i + 1, n).to_owned()),
        None => (String::new(), lang.to_owned()),
    };
    proof {
        assert(dir0@ =~= spec_dirname0(lang@));
        assert(base0@ =~= spec_basename0(lang@));
    }
    let b0n: usize = base0.as_str().unicode_len();
    let (dirname, basename) = if has_prefix(base0.as_str(), "**") {
        let mut d = dir0;
        d.append("/**");
        let b = base0.as_str().substring_char(1, b0n).to_owned();
        proof {
            assert(b@ =~= spec_basename0(lang@).skip(1));
        }
        (d, b)
    } else {
        (dir0, base0)
    };
    proof {
        assert(dirname@ == spec_dirname(lang@));
        assert(basename@ == spec_basename(lang@));
    }
    let glob_char = contains_char(lang, '/') || contains_pair(lang, '*', '*') || contains_char(
        lang,
        '?',
    );
    let stupid = has_prefix(lang, "**.") && {
        let after = lang.substring_char(3, n);
        proof {
            assert(after@ =~= lang@.skip(3));
        }
        !(contains_char(after, '/') || contains_pair(after, '*', '*') || contains_char(
            after,
            '?',
        ))
    };
    let bn: usize = basename.as_str().unicode_len();
    let (more_than_ext, ext) = match rfind_char(basename.as_str(), '.') {
        Some(i) => {
            let pre = basename.as_str().substring_char(0, i);
            let e = basename.as_str().substring_char(i + 1, bn).to_owned();
            proof {
                assert(pre@ =~= basename@.take(i as int));
                assert(e@ =~= basename@.skip(i + 1));
            }
            (!str_eq(pre, "*"), e)
        },
        None => (false, basename.clone()),
    };
    let is_path_glob = (!stupid && glob_char) || more_than_ext;
    PatternInfo { dirname, basename, ext, is_path_glob }
}

/// Whether one of the catalog's file patterns claims this extension or
/// exact basename.
pub open spec fn spec_ft_matches(fts: Seq<FileTypeV>, ext: Seq<char>, basename: Seq<char>) -> bool {
    exists|j: int|
        0 <= j < fts.len() && (match #[trigger] fts[j] {
            FileTypeV::Extension(s) => s == ext,
            FileTypeV::Glob(s) => s == basename,
        })
}

/// The first catalog language claiming the extension or basename.
pub open spec fn spec_match_lang(
    langs: Seq<HelixLangCfgV>,
    ext: Seq<char>,
    basename: Seq<char>,
) -> Option<int>
    decreases langs.len(),
{
    if langs.len() == 0 {
        None
    } else if langs.first().file_types matches Some(fts) && spec_ft_matches(fts, ext, basename) {
        Some(0)
    } else {
        match spec_match_lang(langs.drop_first(), ext, basename) {
            Some(i) => Some(i + 1),
            None => None,
        }
    }
}

fn ft_matches(fts: &Vec<FileType>, ext: &str, basename: &str) -> (r: bool)
    ensures
        r == spec_ft_matches(fts_view(fts@), ext@, basename@),
{
    let mut j: usize = 0;
    while j < fts.len()
        invariant
            j <= fts@.len(),
            forall|k: int|
                0 <= k < j ==> !(match #[trigger] fts_view(fts@)[k] {
                    FileTypeV::Extension(s) => s == ext@,
                    FileTypeV::Glob(s) => s == basename@,
                }),
        decreases fts@.len() - j,
    {
        let hit = match &fts[j] {
            FileType::Extension(s) => str_eq(s.as_str(), ext),
            FileType::Glob(s) => str_eq(s.as_str(), basename),
        };
        if hit {
            proof {
                assert(match fts_view(fts@)[j as int] {
                    FileTypeV::Extension(s) => s == ext@,
                    FileTypeV::Glob(s) => s == basename@,
                });
            }
            return true;
        }
        j = j + 1;
    }
    false
}

proof fn lemma_match_lang_at(langs: Seq<HelixLangCfgV>, ext: Seq<char>, basename: Seq<char>, i: int)
    requires
        0 <= i <= langs.len(),
        forall|k: int|
            0 <= k < i ==> !((#[trigger] langs[k]).file_types matches Some(fts)
                && spec_ft_matches(fts, ext, basename)),
        i < langs.len() ==> (langs[i].file_types matches Some(fts) && spec_ft_matches(
            fts,
            ext,
            basename,
        )),
    ensures
        i < langs.len() ==> spec_match_lang(langs, ext, basename) == Some(i),
        i == langs.len() ==> spec_match_lang(langs, ext, basename) is None,
    decreases i,
{
    if langs.len() == 0 {
    } else if i == 0 {
    } else {
        lemma_match_lang_at(langs.drop_first(), ext, basename, i - 1);
    }
}

/// Find the first catalog language that claims the extension or basename.
pub fn match_lang(langs: &[HelixLangCfg], ext: &str, basename: &str) -> (r: Option<usize>)
    requires
        forall|k: int| 0 <= k < langs@.len() ==> (#[trigger] langs@[k])@.file_types is Some,
    ensures
        match r {
            Some(i) => i < langs@.len() && spec_match_lang(
                crate::model::hx_views(langs@),
                ext@,
                basename@,
            ) == Some(i as int),
            None => spec_match_lang(crate::model::hx_views(langs@), ext@, basename@) is None,
        },
{
    let ghost lv = crate::model::hx_views(langs@);
    let mut i: usize = 0;
    while i < langs.len()
        invariant
            i <= langs@.len(),
            lv == crate::model::hx_views(langs@),
            forall|k: int| 0 <= k < langs@.len() ==> (#[trigger] langs@[k])@.file_types is Some,
            forall|k: int|
                0 <= k < i ==> !((#[trigger] lv[k]).file_types matches Some(fts)
                    && spec_ft_matches(fts, ext@, basename@)),
        decreases langs@.len() - i,
    {
        let fts = match &langs[i].file_types {
            Some(f) => f,
            None => {
                proof {
                    assert(false);
                }
                return None;
            },
        };
        if ft_matches(fts, ext, basename) {
            proof {
                lemma_match_lang_at(lv, ext@, basename@, i as int);
            }
            return Some(i);
        }
        i = i + 1;
    }
    proof {
        lemma_match_lang_at(lv, ext@, basename@, lv.len() as int);
    }
    None
}

} // verus!

verus! {

/// The configuration a matched language receives: the section's values,
/// with gaps filled from a previous section that resolved to the same
/// bucket, then from the catalog default, and with trimming suppressed for
/// a language that already has a formatter.
pub open spec fn spec_merged_cfg(
    map: Seq<(Seq<char>, LangCfgV)>,
    prev_key: Seq<char>,
    sec_cfg: LangCfgV,
    sup: HelixLangCfgV,
) -> LangCfgV {
    let c1 = match spec_map_get(map, prev_key) {
        Some(p) => spec_with_defaults(sec_cfg, p),
        None => sec_cfg,
    };
    let (sz, st) = spec_with_hx_defaults(c1.size, c1.style, c1.tab_width, sup.indent);
    let c2 = LangCfgV { size: sz, style: st, ..c1 };
    LangCfgV {
        trim_trailing_whitespace: spec_formatter_guard(
            c2.trim_trailing_whitespace,
            sup.has_formatter,
        ),
        ..c2
    }
}

fn merged_cfg(
    map: &StrMap<LangCfg>,
    prev_key: &str,
    sec_cfg: &LangCfg,
    sup: &HelixLangCfg,
) -> (r: LangCfg)
    ensures
        r@ == spec_merged_cfg(map.view_seq(), prev_key@, sec_cfg@, sup@),
{
    let mut cfg = sec_cfg.clone();
    let prev: Option<LangCfg> = match map.get(prev_key) {
        Some(p) => Some(p.clone()),
        None => None,
    };
    match &prev {
        Some(p) => {
            cfg.with_defaults_from(p);
        },
        None => {},
    }
    cfg.with_defaults_from_hx_config(sup);
    cfg.apply_formatter_guard(sup.has_formatter);
    cfg
}

/// The file patterns of a matched language, rewritten to live under the
/// glob's directory prefix.
pub open spec fn spec_glob_file_types(fts: Seq<FileTypeV>, dirname: Seq<char>) -> Seq<FileTypeV> {
    Seq::new(
        fts.len(),
        |i: int|
            match fts[i] {
                FileTypeV::Extension(s) => FileTypeV::Glob(dirname + "/*."@ + s),
                FileTypeV::Glob(s) => FileTypeV::Glob(dirname + "/"@ + s),
            },
    )
}

fn glob_file_types(fts: &Vec<FileType>, dirname: &str) -> (r: Vec<FileType>)
    ensures
        fts_view(r@) == spec_glob_file_types(fts_view(fts@), dirname@),
{
    let mut r: Vec<FileType> = Vec::new();
    let mut i: usize = 0;
    while i < fts.len()
        invariant
            i <= fts@.len(),
            r@.len() == i,
            forall|j: int|
                0 <= j < i ==> (#[trigger] r@[j])@ == spec_glob_file_types(
                    fts_view(fts@),
                    dirname@,
                )[j],
        decreases fts@.len() - i,
    {
        let mut g = dirname.to_owned();
        match &fts[i] {
            FileType::Extension(s) => {
                g.append("/*.");
                g.append(s.as_str());
            },
            FileType::Glob(s) => {
                g.append("/");
                g.append(s.as_str());
            },
        }
        r.push(FileType::Glob(g));
        i = i + 1;
    }
    proof {
        assert(fts_view(r@) =~= spec_glob_file_types(fts_view(fts@), dirname@));
    }
    r
}

/// The fallback globs as file patterns.
pub open spec fn spec_fallback_fts(fallback: Seq<Seq<char>>) -> Seq<FileTypeV> {
    Seq::new(fallback.len(), |i: int| FileTypeV::Glob(fallback[i]))
}

pub fn fallback_fts(fallback: &Vec<String>) -> (r: Vec<FileType>)
    ensures
        fts_view(r@) == spec_fallback_fts(views_of(fallback@)),
{
    let mut r: Vec<FileType> = Vec::new();
    let mut i: usize = 0;
    while i < fallback.len()
        invariant
            i <= fallback@.len(),
            r@.len() == i,
            forall|j: int|
                0 <= j < i ==> (#[trigger] r@[j])@ == FileTypeV::Glob(fallback@[j]@),
        decreases fallback@.len() - i,
    {
        r.push(FileType::Glob(fallback[i].clone()));
        i = i + 1;
    }
    proof {
        assert(fts_view(r@) =~= spec_fallback_fts(views_of(fallback@)));
    }
    r
}

/// Process a path glob whose basename is `*`: every catalog language gets a
/// synthesized derivative confined to the glob's directory.
pub open spec fn spec_glob_all(
    langs: Seq<HelixLangCfgV>,
    map: Seq<(Seq<char>, LangCfgV)>,
    globs: Seq<(Seq<char>, Seq<char>)>,
    lang: Seq<char>,
    dirname: Seq<char>,
    sec_cfg: LangCfgV,
) -> (Seq<(Seq<char>, LangCfgV)>, Seq<(Seq<char>, Seq<char>)>)
    decreases langs.len(),
{
    if langs.len() == 0 {
        (map, globs)
    } else {
        let sup = langs.first();
        let name = spec_synthetic_name("glob"@, lang + "-"@ + sup.name);
        let cfg0 = spec_merged_cfg(map, sup.name, sec_cfg, sup);
        let cfg = LangCfgV {
            raw_toml: Some(sup.raw_toml),
            grammar: Some(sup.name),
            file_types: Some(
                spec_glob_file_types(
                    match sup.file_types {
                        Some(f) => f,
                        None => Seq::empty(),
                    },
                    dirname,
                ),
            ),
            ..cfg0
        };
        spec_glob_all(
            langs.drop_first(),
            spec_map_insert(map, name, cfg),
            spec_map_insert(globs, name, sup.name),
            lang,
            dirname,
            sec_cfg,
        )
    }
}

/// Apply one expanded pattern of a section to the accumulated state.
pub open spec fn spec_apply_pattern(
    langs: Seq<HelixLangCfgV>,
    fallback: Seq<Seq<char>>,
    map: Seq<(Seq<char>, LangCfgV)>,
    globs: Seq<(Seq<char>, Seq<char>)>,
    lang: Seq<char>,
    sec_cfg: LangCfgV,
) -> (Seq<(Seq<char>, LangCfgV)>, Seq<(Seq<char>, Seq<char>)>) {
    let dirname = spec_dirname(lang);
    let basename = spec_basename(lang);
    if basename == "*"@ {
        let (m1, g1) = spec_glob_all(langs, map, globs, lang, dirname, sec_cfg);
        let name_fb = spec_synthetic_name("glob"@, lang + "-unknown"@);
        let cfg_fb = LangCfgV { file_types: Some(spec_fallback_fts(fallback)), ..sec_cfg };
        (spec_map_insert(m1, name_fb, cfg_fb), g1)
    } else {
        match spec_match_lang(langs, spec_ext(basename), basename) {
            Some(i) => {
                let sup = langs[i];
                let cfg = spec_merged_cfg(map, sup.name, sec_cfg, sup);
                if spec_is_path_glob(lang) {
                    let name = spec_synthetic_name("glob"@, lang);
                    let cfg2 = LangCfgV {
                        raw_toml: Some(sup.raw_toml),
                        grammar: Some(sup.name),
                        file_types: Some(seq![FileTypeV::Glob(lang)]),
                        ..cfg
                    };
                    (spec_map_insert(map, name, cfg2), spec_map_insert(globs, name, sup.name))
                } else {
                    (spec_map_insert(map, sup.name, cfg), globs)
                }
            },
            None => {
                let name = spec_synthetic_name("unknown"@, lang);
                let cfg0 = LangCfgV { file_types: Some(seq![FileTypeV::Glob(lang)]), ..sec_cfg };
                let cfg = match spec_map_get(map, name) {
                    Some(p) => spec_with_defaults(cfg0, p),
                    None => cfg0,
                };
                (spec_map_insert(map, name, cfg), globs)
            },
        }
    }
}

/// Apply one expanded pattern: classify it, pick the bucket, merge and
/// store the section's configuration there.
pub fn apply_pattern(
    langs: &[HelixLangCfg],
    fallback: &Vec<String>,
    map: &mut StrMap<LangCfg>,
    globs: &mut StrMap<String>,
    lang: &str,
    sec_cfg: &LangCfg,
)
    requires
        forall|k: int| 0 <= k < langs@.len() ==> (#[trigger] langs@[k])@.file_types is Some,
        old(map).wf(),
        old(globs).wf(),
    ensures
        final(map).wf(),
        final(globs).wf(),
        (final(map).view_seq(), final(globs).view_seq()) == spec_apply_pattern(
            crate::model::hx_views(langs@),
            views_of(fallback@),
            old(map).view_seq(),
            old(globs).view_seq(),
            lang@,
            sec_cfg@,
        ),
{
    let ghost lv = crate::model::hx_views(langs@);
    let ghost target = spec_apply_pattern(
        lv,
        views_of(fallback@),
        map.view_seq(),
        globs.view_seq(),
        lang@,
        sec_cfg@,
    );
    let info = classify_pattern(lang);
    if str_eq(info.basename.as_str(), "*") {
        let mut i: usize = 0;
        proof {
            assert(lv.skip(0) =~= lv);
        }
        while i < langs.len()
            invariant
                i <= langs@.len(),
                lv == crate::model::hx_views(langs@),
                forall|k: int| 0 <= k < langs@.len() ==> (#[trigger] langs@[k])@.file_types
                    is Some,
                map.wf(),
                globs.wf(),
                info.dirname@ == spec_dirname(lang@),
                spec_glob_all(
                    lv.skip(i as int),
                    map.view_seq(),
                    globs.view_seq(),
                    lang@,
                    spec_dirname(lang@),
                    sec_cfg@,
                ) == spec_glob_all(
                    lv,
                    old(map).view_seq(),
                    old(globs).view_seq(),
                    lang@,
                    spec_dirname(lang@),
                    sec_cfg@,
                ),
            decreases langs@.len() - i,
        {
            let ghost rem = lv.skip(i as int);
            proof {
                assert(rem.first() == lv[i as int]);
                assert(rem.drop_first() =~= lv.skip(i + 1));
            }
            let sup = &langs[i];
            let cfg0 = merged_cfg(map, sup.name.as_str(), sec_cfg, sup);
            let sup_fts = match &sup.file_types {
                Some(f) => f,
                None => {
                    proof {
                        assert(false);
                    }
                    return ;
                },
            };
            let new_fts = glob_file_types(sup_fts, info.dirname.as_str());
            let mut nm_in = lang.to_owned();
            nm_in.append("-");
            nm_in.append(sup.name.as_str());
            proof {
                assert(nm_in@ == lang@ + "-"@ + sup@.name);
            }
            let name = make_synthetic_lang_name("glob", nm_in.as_str());
            let cfg = LangCfg {
                raw_toml: Some(sup.raw_toml.clone()),
                grammar: Some(sup.name.clone()),
                file_types: Some(new_fts),
                ..cfg0
            };
            globs.insert(name.clone(), sup.name.clone());
            map.insert(name, cfg);
            i = i + 1;
        }
        proof {
            assert(lv.skip(langs@.len() as int).len() == 0);
        }
        let fb = fallback_fts(fallback);
        let mut cfg_fb = sec_cfg.clone();
        cfg_fb.file_types = Some(fb);
        let mut nm_fb = lang.to_owned();
        nm_fb.append("-unknown");
        proof {
            assert(nm_fb@ == lang@ + "-unknown"@);
        }
        let name_fb = make_synthetic_lang_name("glob", nm_fb.as_str());
        map.insert(name_fb, cfg_fb);
        proof {
            assert((map.view_seq(), globs.view_seq()) == target);
        }
    } else {
        match match_lang(langs, info.ext.as_str(), info.basename.as_str()) {
            Some(i) => {
                let sup = &langs[i];
                let cfg = merged_cfg(map, sup.name.as_str(), sec_cfg, sup);
                if info.is_path_glob {
                    let name = make_synthetic_lang_name("glob", lang);
                    let mut ft: Vec<FileType> = Vec::new();
                    ft.push(FileType::Glob(lang.to_owned()));
                    proof {
                        assert(fts_view(ft@) =~= seq![FileTypeV::Glob(lang@)]);
                    }
                    let cfg2 = LangCfg {
                        raw_toml: Some(sup.raw_toml.clone()),
                        grammar: Some(sup.name.clone()),
                        file_types: Some(ft),
                        ..cfg
                    };
                    globs.insert(name.clone(), sup.name.clone());
                    map.insert(name, cfg2);
                } else {
                    map.insert(sup.name.clone(), cfg);
                }
                proof {
                    assert((map.view_seq(), globs.view_seq()) == target);
                }
            },
            None => {
                let name = make_synthetic_lang_name("unknown", lang);
                let mut cfg = sec_cfg.clone();
                let mut ft: Vec<FileType> = Vec::new();
                ft.push(FileType::Glob(lang.to_owned()));
                proof {
                    assert(fts_view(ft@) =~= seq![FileTypeV::Glob(lang@)]);
                }
                cfg.file_types = Some(ft);
                let prev: Option<LangCfg> = match map.get(name.as_str()) {
                    Some(p) => Some(p.clone()),
                    None => None,
                };
                match &prev {
                    Some(p) => {
                        cfg.with_defaults_from(p);
                    },
                    None => {},
                }
                map.insert(name, cfg);
                proof {
                    assert((map.view_seq(), globs.view_seq()) == target);
                }
            },
        }
    }
}

} // verus!

verus! {

use crate::model::{spec_src_into, spec_src_is_some, Property, Src};

/// Sections that resolve to the same bucket merge additively, at the point
/// the pipeline merges them: where the later section is silent on a
/// property, the value accumulated under the bucket survives, and where
/// the later section speaks, its value wins.
pub proof fn lemma_merged_cfg_additive(
    map: Seq<(Seq<char>, LangCfgV)>,
    prev_key: Seq<char>,
    sec_cfg: LangCfgV,
    sup: HelixLangCfgV,
)
    ensures
        (match spec_map_get(map, prev_key) {
            Some(p) => {
                let c = spec_merged_cfg(map, prev_key, sec_cfg, sup);
                &&& (sec_cfg.max_line_length.ec is None && sec_cfg.max_line_length.hx is None
                    ==> c.max_line_length == p.max_line_length)
                &&& (sec_cfg.trim_trailing_whitespace.ec is None
                    && sec_cfg.trim_trailing_whitespace.hx is None && !sup.has_formatter
                    ==> c.trim_trailing_whitespace == p.trim_trailing_whitespace)
                &&& (sec_cfg.size.ec is None && sec_cfg.size.hx is None && spec_src_is_some(
                    p.size,
                ) ==> spec_src_into(c.size) == spec_src_into(p.size))
                &&& (match sec_cfg.max_line_length.ec {
                    Some(Property::Value(v)) => spec_src_into(c.max_line_length) == Some(v),
                    _ => true,
                })
                &&& (match sec_cfg.size.ec {
                    Some(Property::Value(v)) => spec_src_into(c.size) == Some(v),
                    _ => true,
                })
            },
            None => true,
        }),
{
}

/// The formatter guard, at the point the pipeline applies it: for a
/// matched language that already has a formatter, trimming resolves off
/// unless the input engaged the property, in the section itself or in an
/// earlier section accumulated under the same bucket; an explicit value
/// from the section stands.
pub proof fn lemma_merged_cfg_formatter_suppression(
    map: Seq<(Seq<char>, LangCfgV)>,
    prev_key: Seq<char>,
    sec_cfg: LangCfgV,
    sup: HelixLangCfgV,
)
    requires
        sup.has_formatter,
    ensures
        ({
            let c = spec_merged_cfg(map, prev_key, sec_cfg, sup);
            &&& (sec_cfg.trim_trailing_whitespace.ec is None && (match spec_map_get(
                map,
                prev_key,
            ) {
                Some(p) => p.trim_trailing_whitespace.ec is None,
                None => true,
            }) ==> spec_src_into(c.trim_trailing_whitespace) == Some(false))
            &&& (match sec_cfg.trim_trailing_whitespace.ec {
                Some(Property::Value(b)) => spec_src_into(c.trim_trailing_whitespace) == Some(b),
                _ => true,
            })
        }),
{
}

} // verus!
