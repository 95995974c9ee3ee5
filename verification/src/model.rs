//! The data model: indent styles, the sourced-property type that tracks
//! where a value came from, per-language configuration records, and the
//! precedence rules that merge them.

use vstd::prelude::*;

use crate::text::{spec_lower, spec_parse_bool, spec_parse_usize, ascii_lower, parse_bool,
    parse_usize, str_eq};
use crate::tomlio::{table_merge_into, table_union};

verus! {

#[derive(Debug, Clone, Copy, PartialEq, Eq, Structural)]
pub enum IndentStyle {
    Space,
    Tab,
}

/// An EditorConfig property value: either the explicit `unset` sentinel,
/// which suppresses values inherited from an earlier section, or a value.
#[derive(Debug, Clone, Copy)]
pub enum Property<T> {
    Unset,
    Value(T),
}

/// A property with its provenance: the slot a value from the EditorConfig
/// input occupies is distinct from the slot a Helix catalog default
/// occupies, and an explicit EditorConfig value always wins.
#[derive(Debug, Clone, Copy)]
pub struct Src<T> {
    pub ec: Option<Property<T>>,
    pub hx: Option<T>,
}

/// The resolved value of a sourced property: an explicit EditorConfig value
/// wins; otherwise the catalog default, if any, applies.
pub open spec fn spec_src_into<T>(s: Src<T>) -> Option<T> {
    match s.ec {
        Some(Property::Value(v)) => Some(v),
        _ => match s.hx {
            Some(v) => Some(v),
            None => None,
        },
    }
}

/// Whether the property resolves to a value at all.
pub open spec fn spec_src_is_some<T>(s: Src<T>) -> bool {
    (match s.ec {
        Some(Property::Value(_)) => true,
        _ => false,
    }) || s.hx is Some
}

impl<T> Default for Src<T> {
    fn default() -> (r: Self)
        ensures
            r.ec is None,
            r.hx is None,
    {
        Src { ec: None, hx: None }
    }
}

impl<T: Copy> Src<T> {
    /// A property holding only a Helix catalog default.
    pub fn hx(val: T) -> (r: Self)
        ensures
            r == (Src { ec: None, hx: Some(val) }),
    {
        Src { ec: None, hx: Some(val) }
    }

    pub fn is_some(&self) -> (r: bool)
        ensures
            r == spec_src_is_some(*self),
    {
        (match self.ec {
            Some(Property::Value(_)) => true,
            _ => false,
        }) || self.hx.is_some()
    }

    pub fn is_none(&self) -> (r: bool)
        ensures
            r == !spec_src_is_some(*self),
    {
        !self.is_some()
    }

    pub fn into(self) -> (r: Option<T>)
        ensures
            r == spec_src_into(self),
    {
        match (self.ec, self.hx) {
            (Some(Property::Value(val)), _) => Some(val),
            (_, Some(val)) => Some(val),
            _ => None,
        }
    }
}

/// A value that an EditorConfig property string can denote.
pub trait EcValue: Copy + Sized {
    spec fn spec_parse(s: Seq<char>) -> Option<Self>;

    fn parse_ec(s: &str) -> (r: Option<Self>)
        ensures
            r == Self::spec_parse(s@),
    ;
}

impl EcValue for usize {
    // A numeric property is kept only when the emitted TOML can hold it and
    // the column derived from it: TOML integers are 64-bit and signed.
    open spec fn spec_parse(s: Seq<char>) -> Option<usize> {
        match spec_parse_usize(s) {
            Some(v) => if (v as int) < i64::MAX && v < usize::MAX {
                Some(v)
            } else {
                None
            },
            None => None,
        }
    }

    fn parse_ec(s: &str) -> (r: Option<usize>) {
        match parse_usize(s) {
            Some(v) => if (v as u64) < (i64::MAX as u64) && v < usize::MAX {
                Some(v)
            } else {
                None
            },
            None => None,
        }
    }
}

impl EcValue for bool {
    open spec fn spec_parse(s: Seq<char>) -> Option<bool> {
        spec_parse_bool(s)
    }

    fn parse_ec(s: &str) -> (r: Option<bool>) {
        parse_bool(s)
    }
}

impl EcValue for IndentStyle {
    open spec fn spec_parse(s: Seq<char>) -> Option<IndentStyle> {
        if spec_lower(s) == "tab"@ {
            Some(IndentStyle::Tab)
        } else if spec_lower(s) == "space"@ {
            Some(IndentStyle::Space)
        } else {
            None
        }
    }

    fn parse_ec(s: &str) -> (r: Option<IndentStyle>) {
        let lowered = ascii_lower(s);
        if str_eq(lowered.as_str(), "tab") {
            Some(IndentStyle::Tab)
        } else if str_eq(lowered.as_str(), "space") {
            Some(IndentStyle::Space)
        } else {
            None
        }
    }
}

/// The property `s` denotes: the `unset` sentinel stays explicit, any other
/// string is parsed best-effort, and a string that parses as nothing leaves
/// the property absent.
pub open spec fn spec_parse_ec_prop<T: EcValue>(s: Seq<char>) -> Src<T> {
    if s == "unset"@ {
        Src { ec: Some(Property::Unset), hx: None }
    } else {
        match T::spec_parse(s) {
            Some(v) => Src { ec: Some(Property::Value(v)), hx: None },
            None => Src { ec: None, hx: None },
        }
    }
}

impl<T: EcValue> Src<T> {
    pub fn parse_ec_prop(s: &str) -> (r: Self)
        ensures
            r == spec_parse_ec_prop::<T>(s@),
    {
        if str_eq(s, "unset") {
            Src { ec: Some(Property::Unset), hx: None }
        } else {
            match T::parse_ec(s) {
                Some(v) => Src { ec: Some(Property::Value(v)), hx: None },
                None => Src { ec: None, hx: None },
            }
        }
    }
}

/// Fill the gaps of `a` from `b`, slot by slot: each provenance slot of `a`
/// that holds nothing takes `b`'s slot verbatim, `unset` markers included.
pub open spec fn spec_resolve<T>(a: Src<T>, b: Src<T>) -> Src<T> {
    Src {
        ec: if a.ec is None {
            b.ec
        } else {
            a.ec
        },
        hx: if a.hx is None {
            b.hx
        } else {
            a.hx
        },
    }
}

pub fn resolve_src<T: Copy>(a: &mut Src<T>, b: &Src<T>)
    ensures
        *final(a) == spec_resolve(*old(a), *b),
{
    if a.ec.is_none() {
        a.ec = b.ec;
    }
    if a.hx.is_none() {
        a.hx = b.hx;
    }
}

} // verus!

verus! {

/// A file pattern of the language catalog: a bare extension, or a full glob.
#[derive(Debug, PartialEq)]
pub enum FileType {
    Extension(String),
    Glob(String),
}

pub ghost enum FileTypeV {
    Extension(Seq<char>),
    Glob(Seq<char>),
}

impl View for FileType {
    type V = FileTypeV;

    open spec fn view(&self) -> FileTypeV {
        match self {
            FileType::Extension(s) => FileTypeV::Extension(s@),
            FileType::Glob(s) => FileTypeV::Glob(s@),
        }
    }
}

impl Clone for FileType {
    fn clone(&self) -> (r: Self)
        ensures
            r == *self,
    {
        match self {
            FileType::Extension(s) => FileType::Extension(s.clone()),
            FileType::Glob(s) => FileType::Glob(s.clone()),
        }
    }
}

/// The views of a list of file patterns.
pub open spec fn fts_view(v: Seq<FileType>) -> Seq<FileTypeV> {
    Seq::new(v.len(), |i: int| v[i]@)
}

pub fn clone_file_types(v: &Vec<FileType>) -> (r: Vec<FileType>)
    ensures
        r@ == v@,
{
    let mut r: Vec<FileType> = Vec::new();
    let mut i: usize = 0;
    while i < v.len()
        invariant
            i <= v@.len(),
            r@ =~= v@.take(i as int),
        decreases v@.len() - i,
    {
        r.push(v[i].clone());
        i = i + 1;
        proof {
            assert(r@ =~= v@.take(i as int));
        }
    }
    proof {
        assert(v@.take(v@.len() as int) =~= v@);
    }
    r
}

/// One language of the Helix catalog: its name, its default indent (unit
/// size and style), the file patterns it claims, whether it already has a
/// formatter or language server, and the rest of its catalog entry, kept
/// verbatim to be re-emitted with any override.
#[derive(Debug)]
pub struct HelixLangCfg {
    pub name: String,
    pub indent: Option<(usize, IndentStyle)>,
    pub file_types: Option<Vec<FileType>>,
    pub has_formatter: bool,
    pub raw_toml: toml_edit::Table,
}

pub ghost struct HelixLangCfgV {
    pub name: Seq<char>,
    pub indent: Option<(usize, IndentStyle)>,
    pub file_types: Option<Seq<FileTypeV>>,
    pub has_formatter: bool,
    pub raw_toml: toml_edit::Table,
}

impl View for HelixLangCfg {
    type V = HelixLangCfgV;

    open spec fn view(&self) -> HelixLangCfgV {
        HelixLangCfgV {
            name: self.name@,
            indent: self.indent,
            file_types: match self.file_types {
                Some(v) => Some(fts_view(v@)),
                None => None,
            },
            has_formatter: self.has_formatter,
            raw_toml: self.raw_toml,
        }
    }
}

impl Clone for HelixLangCfg {
    fn clone(&self) -> (r: Self)
        ensures
            r@ == self@,
    {
        HelixLangCfg {
            name: self.name.clone(),
            indent: self.indent,
            file_types: match &self.file_types {
                Some(v) => Some(clone_file_types(v)),
                None => None,
            },
            has_formatter: self.has_formatter,
            raw_toml: self.raw_toml.clone(),
        }
    }
}

impl HelixLangCfg {
    pub fn name(&self) -> (r: &str)
        ensures
            r@ == self@.name,
    {
        self.name.as_str()
    }

    pub fn set_has_formatter(&mut self, val: bool)
        ensures
            final(self)@ == (HelixLangCfgV { has_formatter: val, ..old(self)@ }),
    {
        self.has_formatter = val;
    }
}

/// A per-language configuration being accumulated: the five sourced
/// properties, plus the file-type binding and passthrough table that only a
/// synthesized language carries.  A `grammar` names the real catalog
/// grammar a path-glob language inherits; it is written into the emitted
/// block in place of the catalog's own injection regex.
pub struct LangCfg {
    pub size: Src<usize>,
    pub style: Src<IndentStyle>,
    pub tab_width: Src<usize>,
    pub max_line_length: Src<usize>,
    pub trim_trailing_whitespace: Src<bool>,
    pub file_types: Option<Vec<FileType>>,
    pub raw_toml: Option<toml_edit::Table>,
    pub grammar: Option<String>,
}

pub ghost struct LangCfgV {
    pub size: Src<usize>,
    pub style: Src<IndentStyle>,
    pub tab_width: Src<usize>,
    pub max_line_length: Src<usize>,
    pub trim_trailing_whitespace: Src<bool>,
    pub file_types: Option<Seq<FileTypeV>>,
    pub raw_toml: Option<toml_edit::Table>,
    pub grammar: Option<Seq<char>>,
}

impl View for LangCfg {
    type V = LangCfgV;

    open spec fn view(&self) -> LangCfgV {
        LangCfgV {
            size: self.size,
            style: self.style,
            tab_width: self.tab_width,
            max_line_length: self.max_line_length,
            trim_trailing_whitespace: self.trim_trailing_whitespace,
            file_types: match self.file_types {
                Some(v) => Some(fts_view(v@)),
                None => None,
            },
            raw_toml: self.raw_toml,
            grammar: match self.grammar {
                Some(g) => Some(g@),
                None => None,
            },
        }
    }
}

impl Clone for LangCfg {
    fn clone(&self) -> (r: Self)
        ensures
            r@ == self@,
    {
        LangCfg {
            size: self.size,
            style: self.style,
            tab_width: self.tab_width,
            max_line_length: self.max_line_length,
            trim_trailing_whitespace: self.trim_trailing_whitespace,
            file_types: match &self.file_types {
                Some(v) => Some(clone_file_types(v)),
                None => None,
            },
            raw_toml: match &self.raw_toml {
                Some(t) => Some(t.clone()),
                None => None,
            },
            grammar: match &self.grammar {
                Some(g) => Some(g.clone()),
                None => None,
            },
        }
    }
}

impl Default for LangCfg {
    fn default() -> (r: Self)
        ensures
            r@ == spec_lang_cfg_default(),
    {
        LangCfg {
            size: Src { ec: None, hx: None },
            style: Src { ec: None, hx: None },
            tab_width: Src { ec: None, hx: None },
            max_line_length: Src { ec: None, hx: None },
            trim_trailing_whitespace: Src { ec: None, hx: None },
            file_types: None,
            raw_toml: None,
            grammar: None,
        }
    }
}

pub open spec fn spec_lang_cfg_default() -> LangCfgV {
    LangCfgV {
        size: Src { ec: None, hx: None },
        style: Src { ec: None, hx: None },
        tab_width: Src { ec: None, hx: None },
        max_line_length: Src { ec: None, hx: None },
        trim_trailing_whitespace: Src { ec: None, hx: None },
        file_types: None,
        raw_toml: None,
        grammar: None,
    }
}

/// The sourced properties of `a` with gaps filled from `b`; the file-type,
/// passthrough and grammar fields stay `a`'s own.
pub open spec fn spec_with_defaults(a: LangCfgV, b: LangCfgV) -> LangCfgV {
    LangCfgV {
        size: spec_resolve(a.size, b.size),
        style: spec_resolve(a.style, b.style),
        tab_width: spec_resolve(a.tab_width, b.tab_width),
        max_line_length: spec_resolve(a.max_line_length, b.max_line_length),
        trim_trailing_whitespace: spec_resolve(
            a.trim_trailing_whitespace,
            b.trim_trailing_whitespace,
        ),
        ..a
    }
}

/// The conservative catalog-default merge: fill only the gaps of an indent
/// configuration, and never let a catalog default override what the input
/// said.  Returns the new size and style; the tab width never changes.
pub open spec fn spec_with_hx_defaults(
    size: Src<usize>,
    style: Src<IndentStyle>,
    tab_width: Src<usize>,
    other: Option<(usize, IndentStyle)>,
) -> (Src<usize>, Src<IndentStyle>) {
    match other {
        None => (size, style),
        Some((osz, ost)) => {
            if spec_src_is_some(tab_width) && spec_src_into(style) != Some(IndentStyle::Space) {
                if spec_src_into(style) == Some(IndentStyle::Tab) {
                    (size, style)
                } else {
                    match ost {
                        IndentStyle::Tab => (size, Src { ec: None, hx: Some(IndentStyle::Tab) }),
                        IndentStyle::Space => (
                            if !spec_src_is_some(size) {
                                Src { ec: None, hx: Some(osz) }
                            } else {
                                size
                            },
                            Src { ec: None, hx: Some(IndentStyle::Space) },
                        ),
                    }
                }
            } else if spec_src_is_some(style) || spec_src_is_some(size) {
                (
                    if !spec_src_is_some(size) {
                        Src { ec: None, hx: Some(osz) }
                    } else {
                        size
                    },
                    if !spec_src_is_some(style) {
                        Src { ec: None, hx: Some(ost) }
                    } else {
                        style
                    },
                )
            } else {
                (size, style)
            }
        },
    }
}

impl LangCfg {
    /// Use `other`'s properties as defaults where this configuration is
    /// silent.
    pub fn with_defaults_from(&mut self, other: &LangCfg)
        ensures
            final(self)@ == spec_with_defaults(old(self)@, other@),
    {
        resolve_src(&mut self.size, &other.size);
        resolve_src(&mut self.style, &other.style);
        resolve_src(&mut self.tab_width, &other.tab_width);
        resolve_src(&mut self.max_line_length, &other.max_line_length);
        resolve_src(&mut self.trim_trailing_whitespace, &other.trim_trailing_whitespace);
    }

    /// Fill indentation gaps from the catalog's own default for the matched
    /// language, conservatively: an explicit tab width from the input is
    /// never overridden by a catalog indent size.
    pub fn with_defaults_from_hx_config(&mut self, other: &HelixLangCfg)
        ensures
            ({
                let (size1, style1) = spec_with_hx_defaults(
                    old(self).size,
                    old(self).style,
                    old(self).tab_width,
                    other.indent,
                );
                final(self)@ == (LangCfgV { size: size1, style: style1, ..old(self)@ })
            }),
    {
        let (other_size, other_style) = match other.indent {
            Some(p) => p,
            None => {
                return ;
            },
        };
        if self.tab_width.is_some() && !matches!(self.style.into(), Some(IndentStyle::Space)) {
            if matches!(self.style.into(), Some(IndentStyle::Tab)) {
                // an input tab width keeps governing: nothing to fill
            } else {
                match other_style {
                    IndentStyle::Tab => {
                        self.style = Src::hx(IndentStyle::Tab);
                    },
                    IndentStyle::Space => {
                        self.style = Src::hx(IndentStyle::Space);
                        if self.size.is_none() {
                            self.size = Src::hx(other_size);
                        }
                    },
                }
            }
        } else if self.style.is_some() || self.size.is_some() {
            if self.size.is_none() {
                self.size = Src::hx(other_size);
            }
            if self.style.is_none() {
                self.style = Src::hx(other_style);
            }
        }
    }
}

} // verus!

verus! {

/// The EditorConfig property keys the translation understands; anything
/// else is dropped early.
#[derive(Debug, Clone, Copy, PartialEq, Eq, Structural)]
pub enum Key {
    IndentStyle,
    IndentSize,
    TabWidth,
    EndOfLine,
    Charset,
    SpellingLanguage,
    TrimTrailingWhitespace,
    InsertFinalNewline,
    Root,
    MaxLineLength,
    Unknown,
}

/// The key a (case-insensitive) property name denotes.
pub open spec fn spec_key_from(s: Seq<char>) -> Key {
    let l = spec_lower(s);
    if l == "indent_style"@ {
        Key::IndentStyle
    } else if l == "indent_size"@ {
        Key::IndentSize
    } else if l == "tab_width"@ {
        Key::TabWidth
    } else if l == "end_of_line"@ {
        Key::EndOfLine
    } else if l == "charset"@ {
        Key::Charset
    } else if l == "spelling_language"@ {
        Key::SpellingLanguage
    } else if l == "trim_trailing_whitespace"@ {
        Key::TrimTrailingWhitespace
    } else if l == "insert_final_newline"@ {
        Key::InsertFinalNewline
    } else if l == "root"@ {
        Key::Root
    } else if l == "max_line_length"@ {
        Key::MaxLineLength
    } else {
        Key::Unknown
    }
}

impl Key {
    pub fn from(value: &str) -> (r: Key)
        ensures
            r == spec_key_from(value@),
    {
        let l = ascii_lower(value);
        let ls = l.as_str();
        if str_eq(ls, "indent_style") {
            Key::IndentStyle
        } else if str_eq(ls, "indent_size") {
            Key::IndentSize
        } else if str_eq(ls, "tab_width") {
            Key::TabWidth
        } else if str_eq(ls, "end_of_line") {
            Key::EndOfLine
        } else if str_eq(ls, "charset") {
            Key::Charset
        } else if str_eq(ls, "spelling_language") {
            Key::SpellingLanguage
        } else if str_eq(ls, "trim_trailing_whitespace") {
            Key::TrimTrailingWhitespace
        } else if str_eq(ls, "insert_final_newline") {
            Key::InsertFinalNewline
        } else if str_eq(ls, "root") {
            Key::Root
        } else if str_eq(ls, "max_line_length") {
            Key::MaxLineLength
        } else {
            Key::Unknown
        }
    }
}

/// The views of a section's key/value pairs.
pub open spec fn sec_view(s: Seq<(Key, String)>) -> Seq<(Key, Seq<char>)> {
    Seq::new(s.len(), |i: int| (s[i].0, s[i].1@))
}

/// The value a section holds for `k`: the latest pair wins, as repeated
/// keys overwrite earlier ones.
pub open spec fn spec_sec_get(sec: Seq<(Key, Seq<char>)>, k: Key) -> Option<Seq<char>>
    decreases sec.len(),
{
    if sec.len() == 0 {
        None
    } else if sec.last().0 == k {
        Some(sec.last().1)
    } else {
        spec_sec_get(sec.drop_last(), k)
    }
}

proof fn lemma_sec_get_at(sec: Seq<(Key, Seq<char>)>, k: Key, i: int)
    requires
        0 <= i <= sec.len(),
        forall|j: int| i <= j < sec.len() ==> (#[trigger] sec[j]).0 != k,
    ensures
        spec_sec_get(sec, k) == spec_sec_get(sec.subrange(0, i), k),
    decreases sec.len() - i,
{
    if i < sec.len() {
        assert(sec.last().0 != k);
        assert(sec.drop_last() =~= sec.subrange(0, sec.len() - 1));
        lemma_sec_get_at(sec.drop_last(), k, i);
        assert(sec.drop_last().subrange(0, i) =~= sec.subrange(0, i));
    } else {
        assert(sec.subrange(0, i) =~= sec);
    }
}

/// Look a key up in a section, latest pair first.
pub fn sec_get<'a>(sec: &'a Vec<(Key, String)>, k: Key) -> (r: Option<&'a String>)
    ensures
        match r {
            Some(v) => spec_sec_get(sec_view(sec@), k) == Some(v@),
            None => spec_sec_get(sec_view(sec@), k) is None,
        },
{
    let ghost sv = sec_view(sec@);
    let mut i: usize = sec.len();
    while i > 0
        invariant
            i <= sec@.len(),
            sv == sec_view(sec@),
            forall|j: int| i <= j < sv.len() ==> (#[trigger] sv[j]).0 != k,
        decreases i,
    {
        i = i - 1;
        if sec[i].0 == k {
            proof {
                lemma_sec_get_at(sv, k, i + 1);
                assert(sv.subrange(0, i + 1).last() == sv[i as int]);
            }
            return Some(&sec[i].1);
        }
    }
    proof {
        lemma_sec_get_at(sv, k, 0);
        assert(sv.subrange(0, 0).len() == 0);
    }
    None
}

/// The sourced property a section gives for `k`.
pub open spec fn spec_src_from_section<T: EcValue>(sec: Seq<(Key, Seq<char>)>, k: Key) -> Src<T> {
    match spec_sec_get(sec, k) {
        Some(v) => spec_parse_ec_prop::<T>(v),
        None => Src { ec: None, hx: None },
    }
}

fn src_from_section<T: EcValue>(sec: &Vec<(Key, String)>, k: Key) -> (r: Src<T>)
    ensures
        r == spec_src_from_section::<T>(sec_view(sec@), k),
{
    match sec_get(sec, k) {
        Some(v) => Src::<T>::parse_ec_prop(v.as_str()),
        None => Src { ec: None, hx: None },
    }
}

/// The language configuration a section denotes, before any defaults are
/// layered in.
pub open spec fn spec_lang_cfg_from(sec: Seq<(Key, Seq<char>)>) -> LangCfgV {
    LangCfgV {
        size: spec_src_from_section::<usize>(sec, Key::IndentSize),
        style: spec_src_from_section::<IndentStyle>(sec, Key::IndentStyle),
        tab_width: spec_src_from_section::<usize>(sec, Key::TabWidth),
        max_line_length: spec_src_from_section::<usize>(sec, Key::MaxLineLength),
        trim_trailing_whitespace: spec_src_from_section::<bool>(
            sec,
            Key::TrimTrailingWhitespace,
        ),
        file_types: None,
        raw_toml: None,
        grammar: None,
    }
}

impl LangCfg {
    pub fn from(section: &Vec<(Key, String)>) -> (r: LangCfg)
        ensures
            r@ == spec_lang_cfg_from(sec_view(section@)),
    {
        LangCfg {
            size: src_from_section::<usize>(section, Key::IndentSize),
            style: src_from_section::<IndentStyle>(section, Key::IndentStyle),
            tab_width: src_from_section::<usize>(section, Key::TabWidth),
            max_line_length: src_from_section::<usize>(section, Key::MaxLineLength),
            trim_trailing_whitespace: src_from_section::<bool>(
                section,
                Key::TrimTrailingWhitespace,
            ),
            file_types: None,
            raw_toml: None,
            grammar: None,
        }
    }
}

/// The indent a finished configuration denotes: with a space style, `size`
/// spaces (the tab width never affects spacing); with a tab style, one tab
/// whose reported width is `size` if present, else the tab width.  Without
/// a style, or a tab style with no width at all, no indent is emitted.
pub open spec fn spec_indent(
    size: Src<usize>,
    style: Src<IndentStyle>,
    tab_width: Src<usize>,
) -> Option<(IndentStyle, usize)> {
    match spec_src_into(style) {
        None => None,
        Some(st) => match st {
            IndentStyle::Space => match spec_src_into(size) {
                Some(sz) => Some((IndentStyle::Space, sz)),
                None => None,
            },
            IndentStyle::Tab => match spec_src_into(size) {
                Some(sz) => Some((IndentStyle::Tab, sz)),
                None => match spec_src_into(tab_width) {
                    Some(tw) => Some((IndentStyle::Tab, tw)),
                    None => None,
                },
            },
        },
    }
}

/// An explicit tab-oriented input survives any catalog default: a section
/// that resolves its style to tabs and carries a tab width keeps both, and
/// the indent it emits is a tab of that width (or of the explicit size, if
/// one was given), never a space indent.
pub proof fn lemma_tab_width_survives_catalog(
    size: Src<usize>,
    style: Src<IndentStyle>,
    tab_width: Src<usize>,
    other: Option<(usize, IndentStyle)>,
)
    requires
        spec_src_into(style) == Some(IndentStyle::Tab),
        spec_src_into(tab_width) is Some,
    ensures
        spec_with_hx_defaults(size, style, tab_width, other) == (size, style),
        ({
            let w = match spec_src_into(size) {
                Some(sz) => sz,
                None => spec_src_into(tab_width).unwrap(),
            };
            spec_indent(size, style, tab_width) == Some((IndentStyle::Tab, w))
        }),
{
}

/// A section that gives only a size keeps it, and takes the style from the
/// catalog default: a partial input is completed, never overridden.
pub proof fn lemma_partial_size_takes_catalog_style(
    size: Src<usize>,
    style: Src<IndentStyle>,
    tab_width: Src<usize>,
    osz: usize,
    ost: IndentStyle,
)
    requires
        spec_src_is_some(size),
        !spec_src_is_some(style),
        !spec_src_is_some(tab_width),
    ensures
        ({
            let (size1, style1) = spec_with_hx_defaults(size, style, tab_width, Some((osz, ost)));
            size1 == size && spec_src_into(style1) == Some(ost) && spec_indent(
                size1,
                style1,
                tab_width,
            ) == Some((ost, spec_src_into(size).unwrap()))
        }),
{
}

/// Two sections that resolve to the same language merge additively: where
/// the later one is silent on a property, the earlier value survives, and
/// where the later one speaks, its value wins.
pub proof fn lemma_sections_merge_additively<T>(later: Src<T>, earlier: Src<T>)
    ensures
        later.ec is None && later.hx is None ==> spec_resolve(later, earlier) == earlier,
        (later.ec matches Some(Property::Value(v)) ==> spec_src_into(spec_resolve(later, earlier))
            == Some(v)),
{
}

} // verus!

verus! {

impl PartialEq for HelixLangCfg {
    fn eq(&self, other: &Self) -> (r: bool) {
        if !str_eq(self.name.as_str(), other.name.as_str()) {
            return false;
        }
        let indent_eq = match (self.indent, other.indent) {
            (None, None) => true,
            (Some((a, b)), Some((c, d))) => a == c && b == d,
            _ => false,
        };
        if !indent_eq {
            return false;
        }
        let fts_eq = match (&self.file_types, &other.file_types) {
            (None, None) => true,
            (Some(a), Some(b)) => file_types_eq(a, b),
            _ => {
                proof {
                    assert(self@.file_types != other@.file_types);
                }
                false
            },
        };
        if !fts_eq {
            return false;
        }
        self.has_formatter == other.has_formatter
    }
}

impl vstd::std_specs::cmp::PartialEqSpecImpl for HelixLangCfg {
    open spec fn obeys_eq_spec() -> bool {
        true
    }

    open spec fn eq_spec(&self, other: &Self) -> bool {
        self.name@ == other.name@ && self.indent == other.indent && self@.file_types
            == other@.file_types && self.has_formatter == other.has_formatter
    }
}

fn file_types_eq(a: &Vec<FileType>, b: &Vec<FileType>) -> (r: bool)
    ensures
        r == (fts_view(a@) == fts_view(b@)),
{
    if a.len() != b.len() {
        proof {
            assert(fts_view(a@).len() != fts_view(b@).len());
        }
        return false;
    }
    let mut i: usize = 0;
    while i < a.len()
        invariant
            i <= a@.len(),
            a@.len() == b@.len(),
            forall|j: int| 0 <= j < i ==> fts_view(a@)[j] == fts_view(b@)[j],
        decreases a@.len() - i,
    {
        let same = match (&a[i], &b[i]) {
            (FileType::Extension(x), FileType::Extension(y)) => str_eq(x.as_str(), y.as_str()),
            (FileType::Glob(x), FileType::Glob(y)) => str_eq(x.as_str(), y.as_str()),
            _ => false,
        };
        if !same {
            proof {
                assert(fts_view(a@)[i as int] != fts_view(b@)[i as int]);
            }
            return false;
        }
        i = i + 1;
    }
    proof {
        assert(fts_view(a@) =~= fts_view(b@));
    }
    true
}

/// The trailing-whitespace property after the formatter guard: a language
/// that already has a formatter gets trimming switched off by default, but
/// a property the input explicitly set stands.
pub open spec fn spec_formatter_guard(t: Src<bool>, has_formatter: bool) -> Src<bool> {
    if has_formatter && t.ec is None {
        Src { ec: None, hx: Some(false) }
    } else {
        t
    }
}

impl LangCfg {
    pub fn apply_formatter_guard(&mut self, has_formatter: bool)
        ensures
            final(self)@ == (LangCfgV {
                trim_trailing_whitespace: spec_formatter_guard(
                    old(self).trim_trailing_whitespace,
                    has_formatter,
                ),
                ..old(self)@
            }),
    {
        if has_formatter && self.trim_trailing_whitespace.ec.is_none() {
            self.trim_trailing_whitespace = Src::hx(false);
        }
    }
}

/// For a language that already has a formatter, trailing whitespace ends up
/// trimmed only when the input itself engaged the property: with the input
/// silent, the guard forces it off.
pub proof fn lemma_formatter_suppression(t: Src<bool>)
    ensures
        t.ec is None ==> spec_src_into(spec_formatter_guard(t, true)) == Some(false),
        t.ec is Some ==> spec_formatter_guard(t, true) == t,
        spec_src_into(spec_formatter_guard(t, true)) == Some(true) ==> t.ec is Some,
{
}

} // verus!

verus! {

pub open spec fn hx_views(v: Seq<HelixLangCfg>) -> Seq<HelixLangCfgV> {
    Seq::new(v.len(), |i: int| v[i]@)
}

/// The first user override carrying `name`, if any.
pub open spec fn spec_find_by_name(user: Seq<HelixLangCfgV>, name: Seq<char>) -> Option<int>
    decreases user.len(),
{
    if user.len() == 0 {
        None
    } else if user.first().name == name {
        Some(0)
    } else {
        match spec_find_by_name(user.drop_first(), name) {
            Some(i) => Some(i + 1),
            None => None,
        }
    }
}

proof fn lemma_find_by_name_at(user: Seq<HelixLangCfgV>, name: Seq<char>, i: int)
    requires
        0 <= i <= user.len(),
        forall|j: int| 0 <= j < i ==> (#[trigger] user[j]).name != name,
        i < user.len() ==> user[i].name == name,
    ensures
        i < user.len() ==> spec_find_by_name(user, name) == Some(i),
        i == user.len() ==> spec_find_by_name(user, name) is None,
    decreases i,
{
    if user.len() == 0 {
    } else if i == 0 {
    } else {
        assert(user.first().name != name);
        lemma_find_by_name_at(user.drop_first(), name, i - 1);
    }
}

/// A field present in the override replaces the base field wholesale; the
/// formatter flag only ever turns on; the passthrough tables are joined
/// key by key, the override winning per key.
pub open spec fn spec_merge_one(c: HelixLangCfgV, u: HelixLangCfgV) -> HelixLangCfgV {
    HelixLangCfgV {
        name: c.name,
        indent: if u.indent is Some {
            u.indent
        } else {
            c.indent
        },
        file_types: if u.file_types is Some {
            u.file_types
        } else {
            c.file_types
        },
        has_formatter: c.has_formatter || u.has_formatter,
        raw_toml: table_union(c.raw_toml, u.raw_toml),
    }
}

/// The catalog after user overrides are merged in: each base language takes
/// the first override with its name, and overrides that match no base
/// language are appended in order.
pub open spec fn spec_merge_languages(
    base: Seq<HelixLangCfgV>,
    user: Seq<HelixLangCfgV>,
) -> Seq<HelixLangCfgV>
    decreases base.len(),
{
    if base.len() == 0 {
        user
    } else {
        match spec_find_by_name(user, base.first().name) {
            None => seq![base.first()] + spec_merge_languages(base.drop_first(), user),
            Some(p) => seq![spec_merge_one(base.first(), user[p])] + spec_merge_languages(
                base.drop_first(),
                user.remove(p),
            ),
        }
    }
}

fn find_by_name(user: &Vec<HelixLangCfg>, name: &str) -> (r: Option<usize>)
    ensures
        match r {
            Some(i) => i < user@.len() && spec_find_by_name(hx_views(user@), name@) == Some(
                i as int,
            ),
            None => spec_find_by_name(hx_views(user@), name@) is None,
        },
{
    let ghost uv = hx_views(user@);
    let mut j: usize = 0;
    while j < user.len()
        invariant
            j <= user@.len(),
            uv == hx_views(user@),
            forall|k: int| 0 <= k < j ==> (#[trigger] uv[k]).name != name@,
        decreases user@.len() - j,
    {
        if str_eq(user[j].name.as_str(), name) {
            proof {
                lemma_find_by_name_at(uv, name@, j as int);
            }
            return Some(j);
        }
        j = j + 1;
    }
    proof {
        lemma_find_by_name_at(uv, name@, uv.len() as int);
    }
    None
}

/// Merge user-supplied language overrides into the catalog.  An override
/// replaces the indent, file types and formatter flag of the language with
/// its name field-wholesale, unions its passthrough settings key by key
/// with the override winning, and an override matching nothing becomes a
/// new catalog entry.
pub fn merge_languages(languages: &mut Vec<HelixLangCfg>, user_languages: Vec<HelixLangCfg>)
    ensures
        hx_views(final(languages)@) == spec_merge_languages(
            hx_views(old(languages)@),
            hx_views(user_languages@),
        ),
{
    let ghost base0 = hx_views(languages@);
    let ghost user0 = hx_views(user_languages@);
    let ghost total = spec_merge_languages(base0, user0);
    let mut result: Vec<HelixLangCfg> = Vec::new();
    let mut user = user_languages;
    let mut i: usize = 0;
    proof {
        assert(base0.skip(0) =~= base0);
        assert(hx_views(result@) =~= Seq::<HelixLangCfgV>::empty());
        assert(hx_views(result@) + total =~= total);
    }
    while i < languages.len()
        invariant
            i <= languages@.len(),
            base0 == hx_views(languages@),
            hx_views(result@) + spec_merge_languages(base0.skip(i as int), hx_views(user@))
                == total,
        decreases languages@.len() - i,
    {
        let ghost rem = base0.skip(i as int);
        let ghost uv = hx_views(user@);
        let mut cfg = languages[i].clone();
        proof {
            assert(rem.first() == base0[i as int]);
            assert(rem.drop_first() =~= base0.skip(i + 1));
            assert(cfg@ == base0[i as int]);
        }
        let ghost before = hx_views(result@);
        match find_by_name(&user, cfg.name.as_str()) {
            None => {
                result.push(cfg);
                proof {
                    assert(hx_views(result@) =~= before.push(rem.first()));
                    assert(hx_views(result@) + spec_merge_languages(
                        base0.skip(i + 1),
                        hx_views(user@),
                    ) =~= total);
                }
            },
            Some(p) => {
                let u = user.remove(p);
                proof {
                    assert(u@ == uv[p as int]);
                    assert(hx_views(user@) =~= uv.remove(p as int));
                }
                match u.indent {
                    Some(ind) => {
                        cfg.indent = Some(ind);
                    },
                    None => {},
                }
                match u.file_types {
                    Some(f) => {
                        cfg.file_types = Some(f);
                    },
                    None => {},
                }
                cfg.has_formatter = cfg.has_formatter || u.has_formatter;
                table_merge_into(&mut cfg.raw_toml, u.raw_toml);
                proof {
                    assert(cfg@ == spec_merge_one(rem.first(), uv[p as int]));
                }
                result.push(cfg);
                proof {
                    assert(hx_views(result@) =~= before.push(
                        spec_merge_one(rem.first(), uv[p as int]),
                    ));
                    assert(hx_views(result@) + spec_merge_languages(
                        base0.skip(i + 1),
                        hx_views(user@),
                    ) =~= total);
                }
            },
        }
        i = i + 1;
    }
    proof {
        assert(base0.skip(languages@.len() as int).len() == 0);
    }
    while user.len() > 0
        invariant
            hx_views(result@) + hx_views(user@) == total,
        decreases user@.len(),
    {
        let ghost uv = hx_views(user@);
        let ghost before = hx_views(result@);
        let u = user.remove(0);
        proof {
            assert(u@ == uv.first());
            assert(hx_views(user@) =~= uv.drop_first());
        }
        result.push(u);
        proof {
            assert(hx_views(result@) =~= before.push(uv.first()));
            assert(hx_views(result@) + hx_views(user@) =~= total);
        }
    }
    proof {
        assert(hx_views(user@).len() == 0);
        assert(hx_views(result@) =~= total);
    }
    *languages = result;
}

} // verus!
