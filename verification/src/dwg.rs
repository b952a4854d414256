//! DWG import: recognising DWG files by their signature, reading the
//! converter configuration, choosing a converter backend, and the report and
//! log texts. Reading files, probing the file system and running converters
//! is left to the caller, which hands in what it found.
use vstd::prelude::*;

use crate::document::{doc_state, DocState, Document, ImportedReference};
use crate::dxf::pairs_view;
use crate::import::{file_name_or, name_or, reference_view, summary_view, ImportSummary};
use crate::text::{
    opt_view,
    index_of_char, prefix_before, sub_vec, trimmed,
    bool_string, bool_text, chars_eq, chars_of, decimal, decimal_string, is_alnum, join_strings,
    join_with, lines, lines_of, lower, lower_vec, owned, push_str, string_of, trim, trim_set,
    trim_set_vec, trim_vec,
};

verus! {

/// The first line of the error that asks the user to set a converter up.
pub const DWG_SETUP_REQUIRED: &'static str = "DWG_IMPORT_SETUP_REQUIRED";

/// The family of a DWG conversion program.
#[derive(Clone, Copy, Debug, PartialEq, Eq, Structural)]
pub enum DwgBackendKind {
    Oda,
    LibreDwg,
    FreeCad,
}

/// A DWG conversion backend as found on this machine.
#[derive(Clone, Debug)]
pub struct DwgBackend {
    pub name: &'static str,
    pub kind: DwgBackendKind,
    pub command: Option<String>,
    pub automatic: bool,
    pub source: Option<String>,
}

/// The `[dwg_import]` settings.
#[derive(Clone, Debug)]
pub struct DwgImportConfig {
    pub path: Option<String>,
    pub backend: Option<String>,
    pub converter_path: Option<String>,
}

impl Default for DwgImportConfig {
    fn default() -> (r: Self)
        ensures
            r.path.is_none(),
            r.backend.is_none(),
            r.converter_path.is_none(),
    {
        DwgImportConfig { path: None, backend: None, converter_path: None }
    }
}

// ---------------------------------------------------------------------------
// Paths
// ---------------------------------------------------------------------------

/// `PathBuf::join` of a relative path on Unix: a `/` is put between the two
/// unless the base is empty or already ends with one.
pub open spec fn join_path(base: Seq<char>, rel: Seq<char>) -> Seq<char> {
    if base.len() > 0 && base.last() != '/' {
        base + seq!['/'] + rel
    } else {
        base + rel
    }
}

pub fn join_path_string(base: &str, rel: &str) -> (r: String)
    ensures
        r@ == join_path(base@, rel@),
{
    let b = chars_of(base);
    let mut r = string_of(&b);
    if b.len() > 0 && b[b.len() - 1] != '/' {
        push_str(&mut r, "/");
        proof {
            reveal_strlit("/");
        }
    }
    push_str(&mut r, rel);
    r
}

/// Where the settings file is expected (the first search path).
pub fn settings_path(home: &str) -> (r: String)
    ensures
        r@ == join_path(home@, "lixcad/settings.toml"@),
{
    join_path_string(home, "lixcad/settings.toml")
}

/// The settings files searched, in order.
pub open spec fn settings_path_list(home: Seq<char>) -> Seq<Seq<char>> {
    seq![
        join_path(home, "lixcad/settings.toml"@),
        join_path(home, ".config/lixcad/settings.toml"@),
        join_path(home, ".config/nodalix-cad/settings.toml"@),
    ]
}

pub fn settings_paths(home: &str) -> (r: Vec<String>)
    ensures
        r@.map_values(|s: String| s@) == settings_path_list(home@),
{
    let mut r: Vec<String> = Vec::new();
    r.push(join_path_string(home, "lixcad/settings.toml"));
    r.push(join_path_string(home, ".config/lixcad/settings.toml"));
    r.push(join_path_string(home, ".config/nodalix-cad/settings.toml"));
    assert(r@.map_values(|s: String| s@) =~= settings_path_list(home@));
    r
}

/// The directory a conversion writes into: a directory named by the time in
/// milliseconds under `~/.cache/lixcad/imports`.
pub fn import_workspace(home: &str, millis: u128) -> (r: String)
    ensures
        r@ == join_path(join_path(home@, ".cache/lixcad/imports"@), decimal(millis as nat)),
{
    let base = join_path_string(home, ".cache/lixcad/imports");
    let stamp = decimal_string(millis);
    join_path_string(base.as_str(), stamp.as_str())
}

// ---------------------------------------------------------------------------
// Backend names
// ---------------------------------------------------------------------------

/// A backend name reduced to its ASCII letters and digits, in lower case.
pub open spec fn backend_key(value: Seq<char>) -> Seq<char> {
    lower(value.filter(|c: char| crate::text::is_ascii_alnum(c)))
}

pub fn normalize_backend(value: &str) -> (r: String)
    ensures
        r@ == backend_key(value@),
{
    let v = chars_of(value);
    let mut kept: Vec<char> = Vec::new();
    let mut i: usize = 0;
    while i < v.len()
        invariant
            i <= v.len(),
            kept@ == v@.take(i as int).filter(|c: char| crate::text::is_ascii_alnum(c)),
        decreases v.len() - i,
    {
        proof {
            assert(v@.take(i + 1).drop_last() == v@.take(i as int));
            v@.take(i + 1).lemma_filter_len_push(|c: char| crate::text::is_ascii_alnum(c), v@[i as int]);
            assert(v@.take(i + 1) == v@.take(i as int).push(v@[i as int]));
            reveal_with_fuel(Seq::<_>::filter, 1);
        }
        if is_alnum(v[i]) {
            kept.push(v[i]);
        }
        i += 1;
    }
    assert(v@.take(v.len() as int) == v@);
    string_of(&lower_vec(&kept))
}

pub open spec fn is_oda_name(value: Seq<char>) -> bool {
    let k = backend_key(value);
    k == "oda"@ || k == "odafileconverter"@ || k == "odafileconverterapp"@
}

pub open spec fn is_libredwg_name(value: Seq<char>) -> bool {
    let k = backend_key(value);
    k == "libredwg"@ || k == "dwg2dxf"@
}

pub open spec fn is_freecad_name(value: Seq<char>) -> bool {
    let k = backend_key(value);
    k == "freecad"@ || k == "freecadcmd"@
}

fn key_is(k: &String, lit: &str) -> (r: bool)
    ensures
        r == (k@ == lit@),
{
    chars_eq(&chars_of(k.as_str()), &chars_of(lit))
}

pub fn backend_is_oda(value: &str) -> (r: bool)
    ensures
        r == is_oda_name(value@),
{
    let k = normalize_backend(value);
    key_is(&k, "oda") || key_is(&k, "odafileconverter") || key_is(&k, "odafileconverterapp")
}

pub fn backend_is_libredwg(value: &str) -> (r: bool)
    ensures
        r == is_libredwg_name(value@),
{
    let k = normalize_backend(value);
    key_is(&k, "libredwg") || key_is(&k, "dwg2dxf")
}

pub fn backend_is_freecad(value: &str) -> (r: bool)
    ensures
        r == is_freecad_name(value@),
{
    let k = normalize_backend(value);
    key_is(&k, "freecad") || key_is(&k, "freecadcmd")
}

// ---------------------------------------------------------------------------
// The settings file
// ---------------------------------------------------------------------------

/// The reading state while going through the settings file: inside the
/// `[dwg_import]` table or not, and the backend and converter path read.
pub type ConfigState = (bool, Option<Seq<char>>, Option<Seq<char>>);

/// One line of the settings file applied to the reading state: comments
/// start at `#`; a `[table]` header switches the table; inside
/// `[dwg_import]`, `backend = ...` (stored in lower case) and
/// `converter_path = ...` are read, values without surrounding quotes.
pub open spec fn config_step(st: ConfigState, raw: Seq<char>) -> ConfigState {
    let line = trim(raw.take(index_of_char(raw, '#') as int));
    if line.len() == 0 {
        st
    } else if line[0] == '[' && line.last() == ']' {
        (trim(trim_set(line, seq!['[', ']'])) == "dwg_import"@, st.1, st.2)
    } else if !st.0 {
        st
    } else {
        let k = index_of_char(line, '=');
        if k >= line.len() {
            st
        } else {
            let key = trim(line.take(k as int));
            let value = trim_set(trim_set(trim(line.skip(k + 1 as int)), seq!['"']), seq!['\'']);
            if key == "backend"@ {
                (st.0, Some(lower(value)), st.2)
            } else if key == "converter_path"@ {
                (st.0, st.1, Some(value))
            } else {
                st
            }
        }
    }
}

/// The reading state after the given lines.
pub open spec fn config_state(ls: Seq<Seq<char>>) -> ConfigState
    decreases ls.len(),
{
    if ls.len() == 0 {
        (false, None, None)
    } else {
        config_step(config_state(ls.drop_last()), ls.last())
    }
}

fn vec_is(v: &Vec<char>, lit: &str) -> (r: bool)
    ensures
        r == (v@ == lit@),
{
    chars_eq(v, &chars_of(lit))
}

/// Reads the `[dwg_import]` table of a settings file. The path is left
/// unset.
pub fn parse_config_data(data: &str) -> (r: DwgImportConfig)
    ensures
        r.path.is_none(),
        opt_view(r.backend) == config_state(lines(data@)).1,
        opt_view(r.converter_path) == config_state(lines(data@)).2,
{
    let ls = lines_of(&chars_of(data));
    let ghost lv = ls@.map_values(|l: Vec<char>| l@);
    let mut in_dwg_import = false;
    let mut backend: Option<String> = None;
    let mut converter_path: Option<String> = None;
    let mut i: usize = 0;
    let brackets = vec!['[', ']'];
    let dquote = vec!['"'];
    let squote = vec!['\''];
    while i < ls.len()
        invariant
            lv == ls@.map_values(|l: Vec<char>| l@),
            i <= ls.len(),
            brackets@ == seq!['[', ']'],
            dquote@ == seq!['"'],
            squote@ == seq!['\''],
            config_state(lv.take(i as int)) == (
                in_dwg_import,
                opt_view(backend),
                opt_view(converter_path),
            ),
        decreases ls.len() - i,
    {
        let raw = &ls[i];
        proof {
            assert(lv.take(i + 1).drop_last() == lv.take(i as int));
            assert(lv.take(i + 1).last() == raw@);
        }
        let hash = prefix_before(raw, '#');
        let line = trim_vec(&sub_vec(raw, 0, hash));
        assert(raw@.subrange(0, hash as int) == raw@.take(hash as int));
        if line.len() == 0 {
        } else if line[0] == '[' && line[line.len() - 1] == ']' {
            let inner = trim_vec(&trim_set_vec(&line, &brackets));
            in_dwg_import = vec_is(&inner, "dwg_import");
        } else if !in_dwg_import {
        } else {
            let k = prefix_before(&line, '=');
            if k < line.len() {
                let key = trim_vec(&sub_vec(&line, 0, k));
                let value = trim_set_vec(
                    &trim_set_vec(&trim_vec(&sub_vec(&line, k + 1, line.len())), &dquote),
                    &squote,
                );
                proof {
                    assert(line@.subrange(0, k as int) == line@.take(k as int));
                    assert(line@.subrange(k + 1, line.len() as int) == line@.skip(k + 1));
                }
                if vec_is(&key, "backend") {
                    backend = Some(string_of(&lower_vec(&value)));
                } else if vec_is(&key, "converter_path") {
                    converter_path = Some(string_of(&value));
                }
            }
        }
        i += 1;
    }
    assert(lv.take(ls.len() as int) == lv);
    DwgImportConfig { path: None, backend, converter_path }
}

/// The configuration from the first settings file that could be read:
/// `candidates` holds each search path with its contents when readable.
pub fn load_config(candidates: &Vec<(String, Option<String>)>) -> (r: DwgImportConfig)
    ensures
        match first_readable(candidates@) {
            Some(i) => {
                &&& opt_view(r.path) == Some(candidates@[i].0@)
                &&& opt_view(r.backend) == config_state(lines(candidates@[i].1.unwrap()@)).1
                &&& opt_view(r.converter_path) == config_state(
                    lines(candidates@[i].1.unwrap()@),
                ).2
            },
            None => r.path.is_none() && r.backend.is_none() && r.converter_path.is_none(),
        },
{
    let mut i: usize = 0;
    while i < candidates.len()
        invariant
            i <= candidates.len(),
            first_readable(candidates@) == first_readable_from(candidates@, i as int),
        decreases candidates.len() - i,
    {
        match &candidates[i].1 {
            Some(data) => {
                let mut config = parse_config_data(data.as_str());
                config.path = Some(candidates[i].0.clone());
                return config;
            },
            None => {},
        }
        i += 1;
    }
    DwgImportConfig::default()
}

pub open spec fn first_readable_from(c: Seq<(String, Option<String>)>, i: int) -> Option<int>
    decreases c.len() - i,
{
    if i < 0 || i >= c.len() {
        None
    } else if c[i].1.is_some() {
        Some(i)
    } else {
        first_readable_from(c, i + 1)
    }
}

/// The first search path whose file could be read.
pub open spec fn first_readable(c: Seq<(String, Option<String>)>) -> Option<int> {
    first_readable_from(c, 0)
}

/// The configuration in effect (the same reading as `load_config`).
pub fn validate_config(candidates: &Vec<(String, Option<String>)>) -> (r: DwgImportConfig)
    ensures
        match first_readable(candidates@) {
            Some(i) => {
                &&& opt_view(r.path) == Some(candidates@[i].0@)
                &&& opt_view(r.backend) == config_state(lines(candidates@[i].1.unwrap()@)).1
                &&& opt_view(r.converter_path) == config_state(
                    lines(candidates@[i].1.unwrap()@),
                ).2
            },
            None => r.path.is_none() && r.backend.is_none() && r.converter_path.is_none(),
        },
{
    load_config(candidates)
}

// ---------------------------------------------------------------------------
// Signatures
// ---------------------------------------------------------------------------

/// Whether `h` starts with `AC` followed by the four given digits.
pub open spec fn starts_with_ac(h: Seq<u8>, d: Seq<u8>) -> bool {
    h.len() >= 6 && h[0] == 65u8 && h[1] == 67u8 && h[2] == d[0] && h[3] == d[1] && h[4] == d[2]
        && h[5] == d[3]
}

/// The AutoCAD release that a DWG header names: the first of the known
/// `ACxxxx` signatures that the header starts with.
pub open spec fn dwg_signature(h: Seq<u8>) -> Option<(Seq<char>, Seq<char>)> {
    if starts_with_ac(h, seq![49u8, 48u8, 48u8, 57u8]) {
        Some(("AC1009"@, "AutoCAD R12"@))
    } else if starts_with_ac(h, seq![49u8, 48u8, 49u8, 50u8]) {
        Some(("AC1012"@, "AutoCAD R13"@))
    } else if starts_with_ac(h, seq![49u8, 48u8, 49u8, 52u8]) {
        Some(("AC1014"@, "AutoCAD R14"@))
    } else if starts_with_ac(h, seq![49u8, 48u8, 49u8, 53u8]) {
        Some(("AC1015"@, "AutoCAD 2000"@))
    } else if starts_with_ac(h, seq![49u8, 48u8, 49u8, 56u8]) {
        Some(("AC1018"@, "AutoCAD 2004"@))
    } else if starts_with_ac(h, seq![49u8, 48u8, 50u8, 49u8]) {
        Some(("AC1021"@, "AutoCAD 2007"@))
    } else if starts_with_ac(h, seq![49u8, 48u8, 50u8, 52u8]) {
        Some(("AC1024"@, "AutoCAD 2010"@))
    } else if starts_with_ac(h, seq![49u8, 48u8, 50u8, 55u8]) {
        Some(("AC1027"@, "AutoCAD 2013"@))
    } else if starts_with_ac(h, seq![49u8, 48u8, 51u8, 50u8]) {
        Some(("AC1032"@, "AutoCAD 2018"@))
    } else {
        None
    }
}

/// The known DWG signatures: a header that starts with the bytes of `AC1009`,
/// `AC1012`, `AC1014`, `AC1015`, `AC1018`, `AC1021`, `AC1024`, `AC1027` or
/// `AC1032` is recognised as that code with its release (R12, R13, R14,
/// 2000, 2004, 2007, 2010, 2013, 2018), and a header is unrecognised only
/// when it starts with none of them. A recognised code is always the
/// header's first six bytes.
pub proof fn law_dwg_signature_table(h: Seq<u8>)
    ensures
        ({
            let ac = h.len() >= 6 && h[0] == 65u8 && h[1] == 67u8 && h[2] == 49u8 && h[3] == 48u8;
            let k = (h[4], h[5]);
            &&& ac && k == (48u8, 57u8) ==> dwg_signature(h) == Some(("AC1009"@, "AutoCAD R12"@))
            &&& ac && k == (49u8, 50u8) ==> dwg_signature(h) == Some(("AC1012"@, "AutoCAD R13"@))
            &&& ac && k == (49u8, 52u8) ==> dwg_signature(h) == Some(("AC1014"@, "AutoCAD R14"@))
            &&& ac && k == (49u8, 53u8) ==> dwg_signature(h) == Some(("AC1015"@, "AutoCAD 2000"@))
            &&& ac && k == (49u8, 56u8) ==> dwg_signature(h) == Some(("AC1018"@, "AutoCAD 2004"@))
            &&& ac && k == (50u8, 49u8) ==> dwg_signature(h) == Some(("AC1021"@, "AutoCAD 2007"@))
            &&& ac && k == (50u8, 52u8) ==> dwg_signature(h) == Some(("AC1024"@, "AutoCAD 2010"@))
            &&& ac && k == (50u8, 55u8) ==> dwg_signature(h) == Some(("AC1027"@, "AutoCAD 2013"@))
            &&& ac && k == (51u8, 50u8) ==> dwg_signature(h) == Some(("AC1032"@, "AutoCAD 2018"@))
            &&& dwg_signature(h).is_none() <==> !(ac && (k == (48u8, 57u8) || k == (49u8, 50u8) || k
                == (49u8, 52u8) || k == (49u8, 53u8) || k == (49u8, 56u8) || k == (50u8, 49u8) || k
                == (50u8, 52u8) || k == (50u8, 55u8) || k == (51u8, 50u8)))
        }),
        match dwg_signature(h) {
            Some((code, _)) => code.len() == 6 && forall|i: int|
                0 <= i < 6 ==> (#[trigger] code[i]) as u32 == h[i] as u32,
            None => true,
        },
{
    reveal_strlit("AC1009");
    reveal_strlit("AC1012");
    reveal_strlit("AC1014");
    reveal_strlit("AC1015");
    reveal_strlit("AC1018");
    reveal_strlit("AC1021");
    reveal_strlit("AC1024");
    reveal_strlit("AC1027");
    reveal_strlit("AC1032");
}

fn has_ac(h: &[u8], a: u8, b: u8, c: u8, d: u8) -> (r: bool)
    ensures
        r == starts_with_ac(h@, seq![a, b, c, d]),
{
    h.len() >= 6 && h[0] == 65u8 && h[1] == 67u8 && h[2] == a && h[3] == b && h[4] == c && h[5] == d
}

/// The signature code and AutoCAD release of a DWG header.
pub fn detect_signature(header: &[u8]) -> (r: Option<(&'static str, &'static str)>)
    ensures
        match r {
            Some((code, version)) => dwg_signature(header@) == Some((code@, version@)),
            None => dwg_signature(header@).is_none(),
        },
{
    if has_ac(header, 49, 48, 48, 57) {
        Some(("AC1009", "AutoCAD R12"))
    } else if has_ac(header, 49, 48, 49, 50) {
        Some(("AC1012", "AutoCAD R13"))
    } else if has_ac(header, 49, 48, 49, 52) {
        Some(("AC1014", "AutoCAD R14"))
    } else if has_ac(header, 49, 48, 49, 53) {
        Some(("AC1015", "AutoCAD 2000"))
    } else if has_ac(header, 49, 48, 49, 56) {
        Some(("AC1018", "AutoCAD 2004"))
    } else if has_ac(header, 49, 48, 50, 49) {
        Some(("AC1021", "AutoCAD 2007"))
    } else if has_ac(header, 49, 48, 50, 52) {
        Some(("AC1024", "AutoCAD 2010"))
    } else if has_ac(header, 49, 48, 50, 55) {
        Some(("AC1027", "AutoCAD 2013"))
    } else if has_ac(header, 49, 48, 51, 50) {
        Some(("AC1032", "AutoCAD 2018"))
    } else {
        None
    }
}

pub open spec fn sig_view(signature: Option<(&str, &str)>) -> Option<(Seq<char>, Seq<char>)> {
    match signature {
        Some((c, v)) => Some((c@, v@)),
        None => None,
    }
}

/// The summary kept with a DWG reference.
pub open spec fn reference_summary(signature: Option<(Seq<char>, Seq<char>)>) -> Seq<char> {
    match signature {
        Some((code, version)) => "DWG reference loaded ("@ + code + ", "@ + version + ")."@,
        None => "DWG reference loaded, but the AutoCAD signature was not recognized."@,
    }
}

pub fn dwg_reference_summary(signature: Option<(&str, &str)>) -> (r: String)
    ensures
        r@ == reference_summary(sig_view(signature)),
{
    match signature {
        Some((code, version)) => {
            let mut s = owned("DWG reference loaded (");
            push_str(&mut s, code);
            push_str(&mut s, ", ");
            push_str(&mut s, version);
            push_str(&mut s, ").");
            s
        },
        None => owned("DWG reference loaded, but the AutoCAD signature was not recognized."),
    }
}

/// The warnings kept with a DWG reference.
pub open spec fn reference_warnings(recognized: bool) -> Seq<Seq<char>> {
    let base = seq![
        "DWG is a proprietary binary CAD format; Lix CAD does not yet parse DWG geometry natively."@,
        "Use this import as an external reference for now, or convert DWG to DXF with an optional converter."@,
    ];
    if recognized {
        base
    } else {
        base.push("File does not start with a known DWG signature."@)
    }
}

pub fn dwg_warnings(signature: Option<(&str, &str)>) -> (r: Vec<String>)
    ensures
        r@.map_values(|s: String| s@) == reference_warnings(signature.is_some()),
{
    let mut r: Vec<String> = Vec::new();
    r.push(
        owned(
            "DWG is a proprietary binary CAD format; Lix CAD does not yet parse DWG geometry natively.",
        ),
    );
    r.push(
        owned(
            "Use this import as an external reference for now, or convert DWG to DXF with an optional converter.",
        ),
    );
    if signature.is_none() {
        r.push(owned("File does not start with a known DWG signature."));
    }
    assert(r@.map_values(|s: String| s@) =~= reference_warnings(signature.is_some()));
    r
}

// ---------------------------------------------------------------------------
// Backends
// ---------------------------------------------------------------------------

/// Where to look for one backend: its name and kind, the program names to
/// search for, extra fixed paths, and whether it may convert automatically.
#[derive(Clone, Debug)]
pub struct BackendSearch {
    pub name: &'static str,
    pub kind: DwgBackendKind,
    pub commands: Vec<&'static str>,
    pub fallback_paths: Vec<&'static str>,
    pub automatic: bool,
}

/// Whether a configured backend name names a backend of this kind.
pub open spec fn configured_kind(backend: Option<Seq<char>>, kind: DwgBackendKind) -> bool {
    match backend {
        Some(b) => match kind {
            DwgBackendKind::Oda => is_oda_name(b),
            DwgBackendKind::LibreDwg => is_libredwg_name(b),
            DwgBackendKind::FreeCad => is_freecad_name(b),
        },
        None => false,
    }
}

fn configured_matches(config: &DwgImportConfig, kind: DwgBackendKind) -> (r: bool)
    ensures
        r == configured_kind(opt_view(config.backend), kind),
{
    match &config.backend {
        Some(b) => match kind {
            DwgBackendKind::Oda => backend_is_oda(b.as_str()),
            DwgBackendKind::LibreDwg => backend_is_libredwg(b.as_str()),
            DwgBackendKind::FreeCad => backend_is_freecad(b.as_str()),
        },
        None => false,
    }
}

/// The backends searched, in order: the ODA File Converter (automatic when
/// the settings name it), LibreDWG `dwg2dxf` (automatic unless the settings
/// name another backend), LibreDWG `dwgread` and FreeCAD (never automatic).
pub fn backend_searches(config: &DwgImportConfig) -> (r: Vec<BackendSearch>)
    ensures
        r@.len() == 4,
        r@[0].name@ == "ODA File Converter"@ && r@[0].kind == DwgBackendKind::Oda,
        r@[0].commands@.map_values(|c: &str| c@) == seq![
            "oda-file-converter"@,
            "ODAFileConverter"@,
            "ODAFileConverterApp"@,
        ],
        r@[0].fallback_paths@.map_values(|c: &str| c@) == seq![
            "/usr/bin/oda-file-converter"@,
            "/opt/oda-file-converter/oda-file-converter"@,
        ],
        r@[0].automatic == match opt_view(config.backend) {
            Some(b) => is_oda_name(b),
            None => false,
        },
        r@[1].name@ == "LibreDWG dwg2dxf"@ && r@[1].kind == DwgBackendKind::LibreDwg,
        r@[1].commands@.map_values(|c: &str| c@) == seq!["dwg2dxf"@],
        r@[1].fallback_paths@.len() == 0,
        r@[1].automatic == match opt_view(config.backend) {
            Some(b) => is_libredwg_name(b),
            None => true,
        },
        r@[2].name@ == "LibreDWG dwgread"@ && r@[2].kind == DwgBackendKind::LibreDwg,
        r@[2].commands@.map_values(|c: &str| c@) == seq!["dwgread"@],
        r@[2].fallback_paths@.len() == 0,
        !r@[2].automatic,
        r@[3].name@ == "FreeCAD"@ && r@[3].kind == DwgBackendKind::FreeCad,
        r@[3].commands@.map_values(|c: &str| c@) == seq![
            "freecadcmd"@,
            "FreeCADCmd"@,
            "freecad"@,
            "FreeCAD"@,
        ],
        r@[3].fallback_paths@.len() == 0,
        !r@[3].automatic,
{
    let oda_automatic = match &config.backend {
        Some(b) => backend_is_oda(b.as_str()),
        None => false,
    };
    let libre_automatic = match &config.backend {
        Some(b) => backend_is_libredwg(b.as_str()),
        None => true,
    };
    let mut oda_commands: Vec<&'static str> = Vec::new();
    oda_commands.push("oda-file-converter");
    oda_commands.push("ODAFileConverter");
    oda_commands.push("ODAFileConverterApp");
    let mut oda_paths: Vec<&'static str> = Vec::new();
    oda_paths.push("/usr/bin/oda-file-converter");
    oda_paths.push("/opt/oda-file-converter/oda-file-converter");
    let mut dwg2dxf: Vec<&'static str> = Vec::new();
    dwg2dxf.push("dwg2dxf");
    let mut dwgread: Vec<&'static str> = Vec::new();
    dwgread.push("dwgread");
    let mut freecad: Vec<&'static str> = Vec::new();
    freecad.push("freecadcmd");
    freecad.push("FreeCADCmd");
    freecad.push("freecad");
    freecad.push("FreeCAD");
    let mut r: Vec<BackendSearch> = Vec::new();
    r.push(
        BackendSearch {
            name: "ODA File Converter",
            kind: DwgBackendKind::Oda,
            commands: oda_commands,
            fallback_paths: oda_paths,
            automatic: oda_automatic,
        },
    );
    r.push(
        BackendSearch {
            name: "LibreDWG dwg2dxf",
            kind: DwgBackendKind::LibreDwg,
            commands: dwg2dxf,
            fallback_paths: Vec::new(),
            automatic: libre_automatic,
        },
    );
    r.push(
        BackendSearch {
            name: "LibreDWG dwgread",
            kind: DwgBackendKind::LibreDwg,
            commands: dwgread,
            fallback_paths: Vec::new(),
            automatic: false,
        },
    );
    r.push(
        BackendSearch {
            name: "FreeCAD",
            kind: DwgBackendKind::FreeCad,
            commands: freecad,
            fallback_paths: Vec::new(),
            automatic: false,
        },
    );
    proof {
        assert(r@[0].commands@.map_values(|c: &str| c@) =~= seq![
            "oda-file-converter"@,
            "ODAFileConverter"@,
            "ODAFileConverterApp"@,
        ]);
        assert(r@[0].fallback_paths@.map_values(|c: &str| c@) =~= seq![
            "/usr/bin/oda-file-converter"@,
            "/opt/oda-file-converter/oda-file-converter"@,
        ]);
        assert(r@[1].commands@.map_values(|c: &str| c@) =~= seq!["dwg2dxf"@]);
        assert(r@[2].commands@.map_values(|c: &str| c@) =~= seq!["dwgread"@]);
        assert(r@[3].commands@.map_values(|c: &str| c@) =~= seq![
            "freecadcmd"@,
            "FreeCADCmd"@,
            "freecad"@,
            "FreeCAD"@,
        ]);
    }
    r
}

/// Whether this backend takes its program from the settings: the settings
/// name a backend of its kind and give a converter path.
pub fn uses_configured_path(config: &DwgImportConfig, kind: DwgBackendKind) -> (r: bool)
    ensures
        r == (configured_kind(opt_view(config.backend), kind) && config.converter_path.is_some()),
{
    configured_matches(config, kind) && config.converter_path.is_some()
}

/// One way of finding a program: asking the shell (`command -v`), or a file
/// that must exist and be executable.
#[derive(Clone, Debug)]
pub enum CommandProbe {
    Shell(String),
    File(String),
}

pub open spec fn probe_view(p: CommandProbe) -> (bool, Seq<char>) {
    match p {
        CommandProbe::Shell(c) => (true, c@),
        CommandProbe::File(f) => (false, f@),
    }
}

/// The probes for one program name: the shell, then `/usr/bin`,
/// `/usr/local/bin` and `~/.local/bin`.
pub open spec fn probes_for(command: Seq<char>, home: Seq<char>) -> Seq<(bool, Seq<char>)> {
    seq![
        (true, command),
        (false, join_path("/usr/bin"@, command)),
        (false, join_path("/usr/local/bin"@, command)),
        (false, join_path(join_path(home, ".local/bin"@), command)),
    ]
}

/// All probes, in the order in which the first success is taken: those of
/// each program name in turn, then the fixed paths.
pub open spec fn command_probe_list(
    commands: Seq<Seq<char>>,
    fallback: Seq<Seq<char>>,
    home: Seq<char>,
) -> Seq<(bool, Seq<char>)>
    decreases commands.len(),
{
    if commands.len() == 0 {
        fallback.map_values(|f: Seq<char>| (false, f))
    } else {
        probes_for(commands[0], home) + command_probe_list(commands.drop_first(), fallback, home)
    }
}

/// The probes that find a backend's program, in order; the program is the
/// path that the first successful probe gives.
pub fn command_probes(search: &BackendSearch, home: &str) -> (r: Vec<CommandProbe>)
    ensures
        r@.map_values(|p: CommandProbe| probe_view(p)) == command_probe_list(
            search.commands@.map_values(|c: &str| c@),
            search.fallback_paths@.map_values(|c: &str| c@),
            home@,
        ),
{
    let ghost cv = search.commands@.map_values(|c: &str| c@);
    let ghost fv = search.fallback_paths@.map_values(|c: &str| c@);
    let mut r: Vec<CommandProbe> = Vec::new();
    let local = join_path_string(home, ".local/bin");
    let mut i: usize = 0;
    assert(cv.skip(0) == cv);
    while i < search.commands.len()
        invariant
            cv == search.commands@.map_values(|c: &str| c@),
            fv == search.fallback_paths@.map_values(|c: &str| c@),
            local@ == join_path(home@, ".local/bin"@),
            i <= search.commands.len(),
            r@.map_values(|p: CommandProbe| probe_view(p)) + command_probe_list(
                cv.skip(i as int),
                fv,
                home@,
            ) == command_probe_list(cv, fv, home@),
        decreases search.commands.len() - i,
    {
        let command = search.commands[i];
        let ghost before = r@.map_values(|p: CommandProbe| probe_view(p));
        r.push(CommandProbe::Shell(owned(command)));
        r.push(CommandProbe::File(join_path_string("/usr/bin", command)));
        r.push(CommandProbe::File(join_path_string("/usr/local/bin", command)));
        r.push(CommandProbe::File(join_path_string(local.as_str(), command)));
        proof {
            let rest = cv.skip(i as int);
            assert(rest[0] == command@);
            assert(rest.drop_first() == cv.skip(i + 1));
            assert(r@.map_values(|p: CommandProbe| probe_view(p)) =~= before + probes_for(command@, home@));
        }
        i += 1;
    }
    let ghost mid = r@.map_values(|p: CommandProbe| probe_view(p));
    proof {
        assert(cv.skip(i as int) == Seq::<Seq<char>>::empty());
    }
    let mut j: usize = 0;
    while j < search.fallback_paths.len()
        invariant
            fv == search.fallback_paths@.map_values(|c: &str| c@),
            j <= search.fallback_paths.len(),
            r@.map_values(|p: CommandProbe| probe_view(p)) == mid + fv.take(j as int).map_values(
                |f: Seq<char>| (false, f),
            ),
        decreases search.fallback_paths.len() - j,
    {
        let ghost before = r@.map_values(|p: CommandProbe| probe_view(p));
        r.push(CommandProbe::File(owned(search.fallback_paths[j])));
        proof {
            assert(fv.take(j + 1) == fv.take(j as int).push(fv[j as int]));
            assert(r@.map_values(|p: CommandProbe| probe_view(p)) =~= before.push((false, fv[j as int])));
            assert(fv.take(j + 1).map_values(|f: Seq<char>| (false, f)) =~= fv.take(j as int).map_values(
                |f: Seq<char>| (false, f),
            ).push((false, fv[j as int])));
        }
        j += 1;
    }
    assert(fv.take(search.fallback_paths.len() as int) == fv);
    r
}

/// The backend record: with the settings naming this kind and giving a
/// converter path, that path when it is usable (it exists and is
/// executable), with the settings file as source; otherwise what the probes
/// found, with `path/fallback` as source.
pub open spec fn backend_record(
    search: BackendSearch,
    config: DwgImportConfig,
    configured_usable: bool,
    found: Option<Seq<char>>,
) -> (Option<Seq<char>>, Seq<char>) {
    kind_record(search.kind, config, configured_usable, found)
}

/// The program and source of a backend of this kind (see `backend_record`).
pub open spec fn kind_record(
    kind: DwgBackendKind,
    config: DwgImportConfig,
    configured_usable: bool,
    found: Option<Seq<char>>,
) -> (Option<Seq<char>>, Seq<char>) {
    if configured_kind(opt_view(config.backend), kind) && config.converter_path.is_some() {
        (
            if configured_usable {
                opt_view(config.converter_path)
            } else {
                None
            },
            "config "@ + match opt_view(config.path) {
                Some(p) => p,
                None => "unknown"@,
            },
        )
    } else {
        (found, "path/fallback"@)
    }
}

/// Builds the record of one backend from what was found for it.
pub fn make_backend(
    search: &BackendSearch,
    config: &DwgImportConfig,
    configured_usable: bool,
    found: Option<String>,
) -> (r: DwgBackend)
    ensures
        r.name == search.name,
        r.kind == search.kind,
        r.automatic == search.automatic,
        (opt_view(r.command), opt_view(r.source).unwrap()) == backend_record(
            *search,
            *config,
            configured_usable,
            opt_view(found),
        ),
        r.source.is_some(),
{
    if uses_configured_path(config, search.kind) {
        let command = if configured_usable {
            config.converter_path.clone()
        } else {
            None
        };
        let mut source = owned("config ");
        match &config.path {
            Some(p) => push_str(&mut source, p.as_str()),
            None => push_str(&mut source, "unknown"),
        }
        return DwgBackend {
            name: search.name,
            kind: search.kind,
            command,
            automatic: search.automatic,
            source: Some(source),
        };
    }
    DwgBackend {
        name: search.name,
        kind: search.kind,
        command: found,
        automatic: search.automatic,
        source: Some(owned("path/fallback")),
    }
}

// ---------------------------------------------------------------------------
// Status report
// ---------------------------------------------------------------------------

/// A backend together with what the file system says of its program: whether
/// the path exists and whether it has an execute bit.
#[derive(Clone, Debug)]
pub struct BackendStatus {
    pub backend: DwgBackend,
    pub exists: bool,
    pub executable: bool,
}

/// What was found on the machine for one backend: whether the converter path
/// of the settings is usable (it exists and is executable), the program the
/// search found, and whether the backend's resulting program exists and is
/// executable.
#[derive(Clone, Debug)]
pub struct BackendProbe {
    pub configured_usable: bool,
    pub found: Option<String>,
    pub exists: bool,
    pub executable: bool,
}

/// The name of the `i`-th backend searched (see `backend_searches`).
pub open spec fn search_name(i: int) -> Seq<char> {
    if i == 0 {
        "ODA File Converter"@
    } else if i == 1 {
        "LibreDWG dwg2dxf"@
    } else if i == 2 {
        "LibreDWG dwgread"@
    } else {
        "FreeCAD"@
    }
}

/// The kind of the `i`-th backend searched.
pub open spec fn search_kind(i: int) -> DwgBackendKind {
    if i == 0 {
        DwgBackendKind::Oda
    } else if i <= 2 {
        DwgBackendKind::LibreDwg
    } else {
        DwgBackendKind::FreeCad
    }
}

/// Whether the `i`-th backend searched may convert automatically.
pub open spec fn search_automatic(config: DwgImportConfig, i: int) -> bool {
    if i == 0 {
        match opt_view(config.backend) {
            Some(b) => is_oda_name(b),
            None => false,
        }
    } else if i == 1 {
        match opt_view(config.backend) {
            Some(b) => is_libredwg_name(b),
            None => true,
        }
    } else {
        false
    }
}

/// The statuses are those of the four backends searched, in order (ODA File
/// Converter, LibreDWG dwg2dxf, LibreDWG dwgread, FreeCAD), each built from
/// its probe.
pub open spec fn statuses_match(
    config: DwgImportConfig,
    probes: Seq<BackendProbe>,
    s: Seq<BackendStatus>,
) -> bool {
    &&& probes.len() == 4
    &&& s.len() == 4
    &&& forall|i: int|
        0 <= i < 4 ==> {
            let b = #[trigger] s[i];
            &&& b.backend.name@ == search_name(i)
            &&& b.backend.kind == search_kind(i)
            &&& b.backend.automatic == search_automatic(config, i)
            &&& b.backend.source.is_some()
            &&& (opt_view(b.backend.command), opt_view(b.backend.source).unwrap()) == kind_record(
                search_kind(i),
                config,
                probes[i].configured_usable,
                opt_view(probes[i].found),
            )
            &&& b.exists == probes[i].exists
            &&& b.executable == probes[i].executable
        }
}

/// The statuses of the four backends searched, each built from its probe.
pub fn backend_statuses(config: &DwgImportConfig, probes: &[BackendProbe; 4]) -> (r: Vec<
    BackendStatus,
>)
    ensures
        statuses_match(*config, probes@, r@),
{
    let searches = backend_searches(config);
    let mut r: Vec<BackendStatus> = Vec::new();
    let mut i: usize = 0;
    while i < 4
        invariant
            i <= 4,
            searches@.len() == 4,
            probes@.len() == 4,
            r@.len() == i,
            searches@[0].name@ == "ODA File Converter"@ && searches@[0].kind == DwgBackendKind::Oda,
            searches@[1].name@ == "LibreDWG dwg2dxf"@ && searches@[1].kind == DwgBackendKind::LibreDwg,
            searches@[2].name@ == "LibreDWG dwgread"@ && searches@[2].kind == DwgBackendKind::LibreDwg,
            searches@[3].name@ == "FreeCAD"@ && searches@[3].kind == DwgBackendKind::FreeCad,
            forall|k: int| 0 <= k < 4 ==> #[trigger] searches@[k].automatic == search_automatic(*config, k),
            forall|k: int|
                0 <= k < i ==> {
                    let b = #[trigger] r@[k];
                    &&& b.backend.name@ == search_name(k)
                    &&& b.backend.kind == search_kind(k)
                    &&& b.backend.automatic == search_automatic(*config, k)
                    &&& b.backend.source.is_some()
                    &&& (opt_view(b.backend.command), opt_view(b.backend.source).unwrap())
                        == kind_record(
                        search_kind(k),
                        *config,
                        probes@[k].configured_usable,
                        opt_view(probes@[k].found),
                    )
                    &&& b.exists == probes@[k].exists
                    &&& b.executable == probes@[k].executable
                },
        decreases 4 - i,
    {
        let probe = &probes[i];
        let backend = make_backend(&searches[i], config, probe.configured_usable, probe.found.clone());
        let status = BackendStatus { backend, exists: probe.exists, executable: probe.executable };
        r.push(status);
        i += 1;
    }
    r
}

/// The report lines of the backends depend on nothing but the settings and
/// the probes: any two status lists built from them report alike.
pub proof fn law_status_lines_determined(
    config: DwgImportConfig,
    probes: Seq<BackendProbe>,
    s1: Seq<BackendStatus>,
    s2: Seq<BackendStatus>,
)
    requires
        statuses_match(config, probes, s1),
        statuses_match(config, probes, s2),
    ensures
        s1.map_values(|s: BackendStatus| backend_report(s)) == s2.map_values(
            |s: BackendStatus| backend_report(s),
        ),
{
    assert forall|i: int| 0 <= i < 4 implies backend_report(#[trigger] s1[i]) == backend_report(s2[i]) by {
        let a = s1[i];
        let b = s2[i];
        assert(a.backend.name@ == b.backend.name@);
        assert(opt_view(a.backend.command) == opt_view(b.backend.command));
        assert(opt_view(a.backend.source) == opt_view(b.backend.source));
    }
    assert(s1.map_values(|s: BackendStatus| backend_report(s)) =~= s2.map_values(
        |s: BackendStatus| backend_report(s),
    ));
}

/// The text of an optional setting, or `default` when it is missing.
pub open spec fn or_text(o: Option<Seq<char>>, default: Seq<char>) -> Seq<char> {
    match o {
        Some(x) => x,
        None => default,
    }
}

fn text_or(o: &Option<String>, default: &str) -> (r: String)
    ensures
        r@ == or_text(opt_view(*o), default@),
{
    match o {
        Some(x) => x.clone(),
        None => owned(default),
    }
}

/// The lines that describe the settings: where they were loaded from and
/// the two values, or where they are expected.
pub open spec fn config_report(config: DwgImportConfig, home: Seq<char>) -> Seq<Seq<char>> {
    match opt_view(config.path) {
        Some(p) => seq![
            "DWG import config loaded from "@ + p,
            "backend="@ + or_text(opt_view(config.backend), "not set"@),
            "converter_path="@ + or_text(opt_view(config.converter_path), "not set"@),
        ],
        None => seq![
            "DWG import not configured. Expected "@ + join_path(home, "lixcad/settings.toml"@)
                + " with [dwg_import] backend and converter_path."@,
        ],
    }
}

/// The line of one backend.
pub open spec fn backend_report(s: BackendStatus) -> Seq<char> {
    let state = match opt_view(s.backend.command) {
        Some(p) => "found at "@ + p + " · exists="@ + bool_text(s.exists) + " · executable="@
            + bool_text(s.executable),
        None => "not found"@,
    };
    let automatic = if s.backend.automatic {
        "automatic import available"@
    } else {
        "detected/configuration only for now"@
    };
    "- "@ + s.backend.name@ + ": "@ + state + " ("@ + automatic + "; source="@ + or_text(
        opt_view(s.backend.source),
        "auto"@,
    ) + ")"@
}

/// The example settings block that ends the report.
pub open spec fn settings_example() -> Seq<char> {
    "Example:\n[dwg_import]\nbackend = \"oda\"\nconverter_path = \"/usr/bin/oda-file-converter\""@
}

/// All lines of the converter status report.
pub open spec fn status_report_lines(
    config: DwgImportConfig,
    statuses: Seq<BackendStatus>,
    home: Seq<char>,
) -> Seq<Seq<char>> {
    config_report(config, home) + seq!["Detected DWG conversion backends:"@] + statuses.map_values(
        |s: BackendStatus| backend_report(s),
    ) + seq!["\nConfig search paths:"@] + settings_path_list(home).map_values(
        |p: Seq<char>| "- "@ + p,
    ) + seq![settings_example()]
}

fn config_report_lines(config: &DwgImportConfig, home: &str) -> (r: Vec<String>)
    ensures
        r@.map_values(|s: String| s@) == config_report(*config, home@),
{
    let mut r: Vec<String> = Vec::new();
    match &config.path {
        Some(p) => {
            let mut a = owned("DWG import config loaded from ");
            push_str(&mut a, p.as_str());
            let mut b = owned("backend=");
            let bv = text_or(&config.backend, "not set");
            push_str(&mut b, bv.as_str());
            let mut c = owned("converter_path=");
            let cv = text_or(&config.converter_path, "not set");
            push_str(&mut c, cv.as_str());
            r.push(a);
            r.push(b);
            r.push(c);
        },
        None => {
            let mut a = owned("DWG import not configured. Expected ");
            let sp = settings_path(home);
            push_str(&mut a, sp.as_str());
            push_str(&mut a, " with [dwg_import] backend and converter_path.");
            r.push(a);
        },
    }
    assert(r@.map_values(|s: String| s@) =~= config_report(*config, home@));
    r
}

fn backend_report_line(s: &BackendStatus) -> (r: String)
    ensures
        r@ == backend_report(*s),
{
    let mut line = owned("- ");
    push_str(&mut line, s.backend.name);
    push_str(&mut line, ": ");
    match &s.backend.command {
        Some(p) => {
            push_str(&mut line, "found at ");
            push_str(&mut line, p.as_str());
            push_str(&mut line, " · exists=");
            push_str(&mut line, bool_string(s.exists));
            push_str(&mut line, " · executable=");
            push_str(&mut line, bool_string(s.executable));
        },
        None => {
            push_str(&mut line, "not found");
        },
    }
    push_str(&mut line, " (");
    if s.backend.automatic {
        push_str(&mut line, "automatic import available");
    } else {
        push_str(&mut line, "detected/configuration only for now");
    }
    push_str(&mut line, "; source=");
    let source = text_or(&s.backend.source, "auto");
    push_str(&mut line, source.as_str());
    push_str(&mut line, ")");
    line
}

/// The report on DWG conversion: the settings, each of the four backends
/// searched (ODA File Converter, LibreDWG dwg2dxf, LibreDWG dwgread,
/// FreeCAD, in that order) with what its probe found of its program, the
/// settings files searched and an example, one per line. The backend lines
/// are determined by the settings and the probes
/// (`law_status_lines_determined`).
pub fn converter_status_text(
    config: &DwgImportConfig,
    probes: &[BackendProbe; 4],
    home: &str,
) -> (r: String)
    ensures
        exists|s: Seq<BackendStatus>|
            statuses_match(*config, probes@, s) && r@ == join_with(
                #[trigger] status_report_lines(*config, s, home@),
                "\n"@,
            ),
{
    let statuses = backend_statuses(config, probes);
    let r = status_text(config, &statuses, home);
    assert(statuses_match(*config, probes@, statuses@) && r@ == join_with(
        status_report_lines(*config, statuses@, home@),
        "\n"@,
    ));
    r
}

/// The report for the given backend statuses.
fn status_text(
    config: &DwgImportConfig,
    statuses: &Vec<BackendStatus>,
    home: &str,
) -> (r: String)
    ensures
        r@ == join_with(status_report_lines(*config, statuses@, home@), "\n"@),
{
    let ghost sv = statuses@.map_values(|s: BackendStatus| backend_report(s));
    let mut lines = config_report_lines(config, home);
    let ghost head = config_report(*config, home@) + seq!["Detected DWG conversion backends:"@];
    lines.push(owned("Detected DWG conversion backends:"));
    assert(lines@.map_values(|s: String| s@) =~= head);
    let mut i: usize = 0;
    while i < statuses.len()
        invariant
            i <= statuses.len(),
            sv == statuses@.map_values(|s: BackendStatus| backend_report(s)),
            lines@.map_values(|s: String| s@) == head + sv.take(i as int),
        decreases statuses.len() - i,
    {
        let line = backend_report_line(&statuses[i]);
        let ghost before = lines@.map_values(|s: String| s@);
        lines.push(line);
        proof {
            assert(sv.take(i + 1) == sv.take(i as int).push(sv[i as int]));
            assert(lines@.map_values(|s: String| s@) =~= before.push(sv[i as int]));
        }
        i += 1;
    }
    assert(sv.take(statuses.len() as int) == sv);
    let ghost mid = lines@.map_values(|s: String| s@);
    lines.push(owned("\nConfig search paths:"));
    let paths = settings_paths(home);
    let ghost pv = settings_path_list(home@);
    let mut j: usize = 0;
    assert(lines@.map_values(|s: String| s@) =~= mid + seq!["\nConfig search paths:"@]
        + pv.take(0).map_values(|p: Seq<char>| "- "@ + p));
    while j < paths.len()
        invariant
            j <= paths.len(),
            pv == settings_path_list(home@),
            paths@.map_values(|s: String| s@) == pv,
            lines@.map_values(|s: String| s@) == mid + seq!["\nConfig search paths:"@]
                + pv.take(j as int).map_values(|p: Seq<char>| "- "@ + p),
        decreases paths.len() - j,
    {
        let mut line = owned("- ");
        push_str(&mut line, paths[j].as_str());
        let ghost before = lines@.map_values(|s: String| s@);
        lines.push(line);
        proof {
            assert(paths@[j as int]@ == pv[j as int]);
            assert(pv.take(j + 1) == pv.take(j as int).push(pv[j as int]));
            assert(pv.take(j + 1).map_values(|p: Seq<char>| "- "@ + p) =~= pv.take(
                j as int,
            ).map_values(|p: Seq<char>| "- "@ + p).push("- "@ + pv[j as int]));
            assert(lines@.map_values(|s: String| s@) =~= before.push("- "@ + pv[j as int]));
        }
        j += 1;
    }
    assert(pv.take(3) == pv);
    let ghost before = lines@.map_values(|s: String| s@);
    lines.push(
        owned(
            "Example:\n[dwg_import]\nbackend = \"oda\"\nconverter_path = \"/usr/bin/oda-file-converter\"",
        ),
    );
    assert(lines@.map_values(|s: String| s@) =~= status_report_lines(*config, statuses@, home@));
    join_strings(&lines, "\n")
}

/// The status report shown on request; the same text as
/// `converter_status_text`.
pub fn dwg_status_report(
    config: &DwgImportConfig,
    probes: &[BackendProbe; 4],
    home: &str,
) -> (r: String)
    ensures
        exists|s: Seq<BackendStatus>|
            statuses_match(*config, probes@, s) && r@ == join_with(
                #[trigger] status_report_lines(*config, s, home@),
                "\n"@,
            ),
{
    converter_status_text(config, probes, home)
}


// ---------------------------------------------------------------------------
// Importing a DWG file
// ---------------------------------------------------------------------------

/// The index of the first backend that has a program and may convert
/// automatically, from `i` on.
pub open spec fn first_automatic(bs: Seq<DwgBackend>, i: int) -> Option<int>
    decreases bs.len() - i,
{
    if i < 0 || i >= bs.len() {
        None
    } else if bs[i].command.is_some() && bs[i].automatic {
        Some(i)
    } else {
        first_automatic(bs, i + 1)
    }
}

/// The backend a DWG import converts with: the first one that has a program
/// and may convert automatically.
pub fn automatic_backend(backends: &Vec<DwgBackend>) -> (r: Option<usize>)
    ensures
        match r {
            Some(i) => first_automatic(backends@, 0) == Some(i as int),
            None => first_automatic(backends@, 0).is_none(),
        },
{
    let mut i: usize = 0;
    while i < backends.len()
        invariant
            i <= backends.len(),
            first_automatic(backends@, 0) == first_automatic(backends@, i as int),
        decreases backends.len() - i,
    {
        if backends[i].command.is_some() && backends[i].automatic {
            return Some(i);
        }
        i += 1;
    }
    None
}

/// The note added to the warnings of a DWG file kept as a reference.
pub open spec fn no_converter_warning() -> Seq<char> {
    "No automatic DWG converter is configured yet."@
}

/// The error of a DWG import that found no converter, followed by the status
/// report.
pub open spec fn setup_error(status: Seq<char>) -> Seq<char> {
    "DWG_IMPORT_SETUP_REQUIRED"@ + "\nDWG import uses an external converter internally.\n\n"@
        + status
}

/// A DWG file imported without a converter is kept as a reference, and the
/// import fails with the status report: the reference to keep and the error.
pub fn unconverted_dwg_import(path: &str, signature: Option<(&str, &str)>, status: &str) -> (r: (
    ImportedReference,
    String,
))
    ensures
        reference_view(r.0) == (
            path@,
            "DWG"@,
            reference_summary(sig_view(signature)),
            reference_warnings(signature.is_some()).push(no_converter_warning()),
        ),
        r.1@ == setup_error(status@),
{
    let mut warnings = dwg_warnings(signature);
    let ghost before = warnings@.map_values(|s: String| s@);
    warnings.push(owned("No automatic DWG converter is configured yet."));
    assert(warnings@.map_values(|s: String| s@) =~= before.push(no_converter_warning()));
    let reference = ImportedReference {
        path: owned(path),
        format: owned("DWG"),
        summary: dwg_reference_summary(signature),
        warnings,
    };
    let mut error = owned(DWG_SETUP_REQUIRED);
    proof {
        reveal_strlit("DWG_IMPORT_SETUP_REQUIRED");
    }
    push_str(&mut error, "\nDWG import uses an external converter internally.\n\n");
    push_str(&mut error, status);
    (reference, error)
}

/// Keeps a DWG file that could not be converted as a reference of the
/// document (see `unconverted_dwg_import`), which then counts as changed,
/// and gives the import's error.
pub fn keep_unconverted_dwg(
    document: &mut Document,
    path: &str,
    signature: Option<(&str, &str)>,
    status: &str,
) -> (r: String)
    ensures
        doc_state(*final(document)) == (DocState {
            references: doc_state(*old(document)).references.push(
                (
                    path@,
                    "DWG"@,
                    reference_summary(sig_view(signature)),
                    reference_warnings(signature.is_some()).push(no_converter_warning()),
                ),
            ),
            ..doc_state(*old(document))
        }),
        final(document).modified,
        r@ == setup_error(status@),
{
    let (reference, error) = unconverted_dwg_import(path, signature, status);
    document.keep_imported_reference(reference);
    error
}

/// The name of the DXF file a conversion writes: the DWG file's stem (or
/// `drawing`) with `.dxf`.
pub fn conversion_output_name(stem: Option<&str>) -> (r: String)
    ensures
        r@ == name_or(stem, "drawing"@) + ".dxf"@,
{
    let mut r = file_name_or(stem, "drawing");
    push_str(&mut r, ".dxf");
    r
}

/// A program to run and its arguments.
#[derive(Clone, Debug)]
pub struct ConversionCommand {
    pub program: String,
    pub args: Vec<String>,
}

/// The command that converts a DWG file to DXF with a backend, or why there
/// is none: `input` is the DWG file, `input_dir` and `file_name` its
/// directory and name (when it has them), `workspace` the directory to write
/// into, `output` the DXF file expected there, and `status` the status report
/// quoted when the backend cannot be run automatically.
pub open spec fn conversion_plan(
    backend: DwgBackend,
    input: Seq<char>,
    input_dir: Option<Seq<char>>,
    file_name: Option<Seq<char>>,
    workspace: Seq<char>,
    output: Seq<char>,
    status: Seq<char>,
) -> Result<(Seq<char>, Seq<Seq<char>>), Seq<char>> {
    match opt_view(backend.command) {
        None => Err("DWG converter was selected but has no executable path."@),
        Some(program) => match backend.kind {
            DwgBackendKind::LibreDwg => Ok((program, seq!["-o"@, output, input])),
            DwgBackendKind::Oda => match (input_dir, file_name) {
                (None, _) => Err("DWG path has no parent directory: "@ + input),
                (Some(_), None) => Err("DWG path has no valid file name: "@ + input),
                (Some(dir), Some(name)) => Ok(
                    (
                        program,
                        seq![dir, workspace, "ACAD2018"@, "DXF"@, "0"@, "1"@, name],
                    ),
                ),
            },
            DwgBackendKind::FreeCad => Err(
                "DWG_IMPORT_SETUP_REQUIRED"@ + "\n"@ + backend.name@
                    + " was detected, but automatic command wiring for this backend is not enabled yet.\n\n"@
                    + status,
            ),
        },
    }
}

pub open spec fn str_opt(o: Option<&str>) -> Option<Seq<char>> {
    match o {
        Some(s) => Some(s@),
        None => None,
    }
}

/// Builds the conversion command of a backend.
pub fn conversion_command(
    backend: &DwgBackend,
    input: &str,
    input_dir: Option<&str>,
    file_name: Option<&str>,
    workspace: &str,
    output: &str,
    status: &str,
) -> (r: Result<ConversionCommand, String>)
    ensures
        match r {
            Ok(c) => conversion_plan(
                *backend,
                input@,
                str_opt(input_dir),
                str_opt(file_name),
                workspace@,
                output@,
                status@,
            ) == Ok::<(Seq<char>, Seq<Seq<char>>), Seq<char>>(
                (c.program@, c.args@.map_values(|a: String| a@)),
            ),
            Err(m) => conversion_plan(
                *backend,
                input@,
                str_opt(input_dir),
                str_opt(file_name),
                workspace@,
                output@,
                status@,
            ) == Err::<(Seq<char>, Seq<Seq<char>>), Seq<char>>(m@),
        },
{
    let program = match &backend.command {
        Some(p) => p.clone(),
        None => {
            return Err(owned("DWG converter was selected but has no executable path."));
        },
    };
    match backend.kind {
        DwgBackendKind::LibreDwg => {
            let mut args: Vec<String> = Vec::new();
            args.push(owned("-o"));
            args.push(owned(output));
            args.push(owned(input));
            assert(args@.map_values(|a: String| a@) =~= seq!["-o"@, output@, input@]);
            Ok(ConversionCommand { program, args })
        },
        DwgBackendKind::Oda => {
            let dir = match input_dir {
                Some(d) => d,
                None => {
                    let mut m = owned("DWG path has no parent directory: ");
                    push_str(&mut m, input);
                    return Err(m);
                },
            };
            let name = match file_name {
                Some(n) => n,
                None => {
                    let mut m = owned("DWG path has no valid file name: ");
                    push_str(&mut m, input);
                    return Err(m);
                },
            };
            let mut args: Vec<String> = Vec::new();
            args.push(owned(dir));
            args.push(owned(workspace));
            args.push(owned("ACAD2018"));
            args.push(owned("DXF"));
            args.push(owned("0"));
            args.push(owned("1"));
            args.push(owned(name));
            assert(args@.map_values(|a: String| a@) =~= seq![
                dir@,
                workspace@,
                "ACAD2018"@,
                "DXF"@,
                "0"@,
                "1"@,
                name@,
            ]);
            Ok(ConversionCommand { program, args })
        },
        DwgBackendKind::FreeCad => {
            let mut m = owned(DWG_SETUP_REQUIRED);
            proof {
                reveal_strlit("DWG_IMPORT_SETUP_REQUIRED");
            }
            push_str(&mut m, "\n");
            push_str(&mut m, backend.name);
            push_str(
                &mut m,
                " was detected, but automatic command wiring for this backend is not enabled yet.\n\n",
            );
            push_str(&mut m, status);
            Err(m)
        },
    }
}

/// The error of a converter that exited with a failure status.
pub fn conversion_failed_message(backend_name: &str, log_path: &str) -> (r: String)
    ensures
        r@ == "DWG conversion failed with "@ + backend_name@ + ". Log: "@ + log_path@,
{
    let mut m = owned("DWG conversion failed with ");
    push_str(&mut m, backend_name);
    push_str(&mut m, ". Log: ");
    push_str(&mut m, log_path);
    m
}

/// The error of a conversion after which no DXF file was found.
pub fn missing_output_message(output: &str, log_path: &str) -> (r: String)
    ensures
        r@ == "DWG conversion did not produce a DXF file. Expected: "@ + output@ + ". Log: "@
            + log_path@,
{
    let mut m = owned("DWG conversion did not produce a DXF file. Expected: ");
    push_str(&mut m, output);
    push_str(&mut m, ". Log: ");
    push_str(&mut m, log_path);
    m
}

/// The error of a converted file that the DXF import refused.
pub fn converted_dxf_failed_message(error: &str) -> (r: String)
    ensures
        r@ == "DWG converted to DXF, but DXF import failed: "@ + error@,
{
    let mut m = owned("DWG converted to DXF, but DXF import failed: ");
    push_str(&mut m, error);
    m
}

/// The conversion log: the converter's standard output and error.
pub fn conversion_log_text(stdout: &str, stderr: &str) -> (r: String)
    ensures
        r@ == "stdout:\n"@ + stdout@ + "\n\nstderr:\n"@ + stderr@,
{
    let mut data = owned("stdout:\n");
    push_str(&mut data, stdout);
    push_str(&mut data, "\n\nstderr:\n");
    push_str(&mut data, stderr);
    data
}

/// A DWG file converted and imported as DXF: the reference to keep and the
/// summary, which puts the backend, output, log and reference lines before
/// the DXF import's own details and takes over its warnings.
pub fn converted_dwg_import(
    path: &str,
    file_name: Option<&str>,
    signature: Option<(&str, &str)>,
    backend_name: &str,
    output: &str,
    log_path: &str,
    dxf: &ImportSummary,
) -> (r: (ImportedReference, ImportSummary))
    ensures
        reference_view(r.0) == (
            path@,
            "DWG"@,
            "DWG imported through "@ + backend_name@ + " -> DXF."@,
            reference_warnings(signature.is_some()),
        ),
        summary_view(r.1) == (
            name_or(file_name, "drawing.dwg"@),
            "DWG"@,
            "DWG converted internally to DXF and imported."@,
            seq![
                ("Backend"@, backend_name@),
                ("Output DXF"@, output@),
                ("Import log"@, log_path@),
                ("Reference"@, reference_summary(sig_view(signature))),
            ] + pairs_view(dxf.details@),
            dxf.warnings@.map_values(|w: String| w@),
        ),
{
    let mut through = owned("DWG imported through ");
    push_str(&mut through, backend_name);
    push_str(&mut through, " -> DXF.");
    let reference = ImportedReference {
        path: owned(path),
        format: owned("DWG"),
        summary: through,
        warnings: dwg_warnings(signature),
    };
    let mut details: Vec<(String, String)> = Vec::new();
    details.push((owned("Backend"), owned(backend_name)));
    details.push((owned("Output DXF"), owned(output)));
    details.push((owned("Import log"), owned(log_path)));
    details.push((owned("Reference"), dwg_reference_summary(signature)));
    let ghost head = pairs_view(details@);
    let mut i: usize = 0;
    while i < dxf.details.len()
        invariant
            i <= dxf.details.len(),
            pairs_view(details@) == head + pairs_view(dxf.details@).take(i as int),
        decreases dxf.details.len() - i,
    {
        let entry = (dxf.details[i].0.clone(), dxf.details[i].1.clone());
        let ghost before = pairs_view(details@);
        details.push(entry);
        proof {
            assert(pairs_view(dxf.details@).take(i + 1) == pairs_view(dxf.details@).take(
                i as int,
            ).push(pairs_view(dxf.details@)[i as int]));
            assert(pairs_view(details@) =~= before.push(pairs_view(dxf.details@)[i as int]));
        }
        i += 1;
    }
    assert(pairs_view(dxf.details@).take(dxf.details.len() as int) == pairs_view(dxf.details@));
    let mut warnings: Vec<String> = Vec::new();
    let mut j: usize = 0;
    while j < dxf.warnings.len()
        invariant
            j <= dxf.warnings.len(),
            warnings@.map_values(|w: String| w@) == dxf.warnings@.map_values(|w: String| w@).take(
                j as int,
            ),
        decreases dxf.warnings.len() - j,
    {
        let w = dxf.warnings[j].clone();
        let ghost before = warnings@.map_values(|w: String| w@);
        warnings.push(w);
        proof {
            let all = dxf.warnings@.map_values(|w: String| w@);
            assert(all.take(j + 1) == all.take(j as int).push(all[j as int]));
            assert(warnings@.map_values(|w: String| w@) =~= before.push(all[j as int]));
        }
        j += 1;
    }
    assert(dxf.warnings@.map_values(|w: String| w@).take(dxf.warnings.len() as int)
        == dxf.warnings@.map_values(|w: String| w@));
    let summary = ImportSummary {
        file_name: file_name_or(file_name, "drawing.dwg"),
        format: owned("DWG"),
        summary: owned("DWG converted internally to DXF and imported."),
        details,
        warnings,
    };
    assert(head =~= seq![
        ("Backend"@, backend_name@),
        ("Output DXF"@, output@),
        ("Import log"@, log_path@),
        ("Reference"@, reference_summary(sig_view(signature))),
    ]);
    (reference, summary)
}

// ---------------------------------------------------------------------------
// Log messages
// ---------------------------------------------------------------------------

/// A line of the DWG log.
pub fn log_line(message: &str) -> (r: String)
    ensures
        r@ == "[lixcad-dwg] "@ + message@ + "\n"@,
{
    let mut line = owned("[lixcad-dwg] ");
    push_str(&mut line, message);
    push_str(&mut line, "\n");
    line
}

/// The log message that describes one backend.
pub open spec fn backend_log(s: BackendStatus) -> Seq<char> {
    let source = or_text(opt_view(s.backend.source), "unknown"@);
    match opt_view(s.backend.command) {
        Some(p) => "DWG backend "@ + s.backend.name@ + " path="@ + p + " exists="@ + bool_text(
            s.exists,
        ) + " executable="@ + bool_text(s.executable) + " automatic="@ + bool_text(
            s.backend.automatic,
        ) + " source="@ + source,
        None => "DWG backend "@ + s.backend.name@ + " not found automatic="@ + bool_text(
            s.backend.automatic,
        ) + " source="@ + source,
    }
}

pub fn log_backend_status(status: &BackendStatus) -> (r: String)
    ensures
        r@ == backend_log(*status),
{
    let b = &status.backend;
    let mut m = owned("DWG backend ");
    push_str(&mut m, b.name);
    match &b.command {
        Some(p) => {
            push_str(&mut m, " path=");
            push_str(&mut m, p.as_str());
            push_str(&mut m, " exists=");
            push_str(&mut m, bool_string(status.exists));
            push_str(&mut m, " executable=");
            push_str(&mut m, bool_string(status.executable));
            push_str(&mut m, " automatic=");
        },
        None => {
            push_str(&mut m, " not found automatic=");
        },
    }
    push_str(&mut m, bool_string(b.automatic));
    push_str(&mut m, " source=");
    let source = text_or(&b.source, "unknown");
    push_str(&mut m, source.as_str());
    m
}

/// The log messages of a converter's output: its standard output, then its
/// standard error, each trimmed.
pub fn log_command_output(backend_name: &str, stdout: &str, stderr: &str) -> (r: (String, String))
    ensures
        r.0@ == backend_name@ + " stdout: "@ + trim(stdout@),
        r.1@ == backend_name@ + " stderr: "@ + trim(stderr@),
{
    let mut out = owned(backend_name);
    push_str(&mut out, " stdout: ");
    let o = trimmed(stdout);
    push_str(&mut out, o.as_str());
    let mut err = owned(backend_name);
    push_str(&mut err, " stderr: ");
    let e = trimmed(stderr);
    push_str(&mut err, e.as_str());
    (out, err)
}

/// The log message of the backend chosen for a conversion.
pub fn selected_backend_message(backend_name: &str, converter: &str, executable: bool) -> (r:
    String)
    ensures
        r@ == "DWG conversion selected backend="@ + backend_name@ + " converter_path="@
            + converter@ + " executable="@ + bool_text(executable),
{
    let mut m = owned("DWG conversion selected backend=");
    push_str(&mut m, backend_name);
    push_str(&mut m, " converter_path=");
    push_str(&mut m, converter);
    push_str(&mut m, " executable=");
    push_str(&mut m, bool_string(executable));
    m
}

/// The log message of a converter run: the program and its arguments
/// separated by spaces.
pub fn run_command_message(command: &ConversionCommand) -> (r: String)
    ensures
        r@ == "running DWG converter command: "@ + command.program@ + " "@ + join_with(
            command.args@.map_values(|a: String| a@),
            " "@,
        ),
{
    let mut m = owned("running DWG converter command: ");
    push_str(&mut m, command.program.as_str());
    push_str(&mut m, " ");
    let args = join_strings(&command.args, " ");
    push_str(&mut m, args.as_str());
    m
}

/// The log message of a configured converter path that cannot be run.
pub fn unusable_path_message(path: &str, exists: bool, executable: bool) -> (r: String)
    ensures
        r@ == "configured converter path is not usable: "@ + path@ + " exists="@ + bool_text(
            exists,
        ) + " executable="@ + bool_text(executable),
{
    let mut m = owned("configured converter path is not usable: ");
    push_str(&mut m, path);
    push_str(&mut m, " exists=");
    push_str(&mut m, bool_string(exists));
    push_str(&mut m, " executable=");
    push_str(&mut m, bool_string(executable));
    m
}

/// The log messages written when the settings were loaded from a file: where
/// from, and the two values; none when no settings file was found.
pub fn config_log_messages(config: &DwgImportConfig) -> (r: Vec<String>)
    ensures
        r@.map_values(|m: String| m@) == match opt_view(config.path) {
            Some(p) => seq![
                "DWG import config loaded from "@ + p,
                "backend="@ + or_text(opt_view(config.backend), "not set"@) + " converter_path="@
                    + or_text(opt_view(config.converter_path), "not set"@),
            ],
            None => Seq::<Seq<char>>::empty(),
        },
{
    let mut r: Vec<String> = Vec::new();
    match &config.path {
        Some(p) => {
            let mut a = owned("DWG import config loaded from ");
            push_str(&mut a, p.as_str());
            let mut b = owned("backend=");
            let bv = text_or(&config.backend, "not set");
            push_str(&mut b, bv.as_str());
            push_str(&mut b, " converter_path=");
            let cv = text_or(&config.converter_path, "not set");
            push_str(&mut b, cv.as_str());
            r.push(a);
            r.push(b);
        },
        None => {},
    }
    assert(r@.map_values(|m: String| m@) =~= match opt_view(config.path) {
        Some(p) => seq![
            "DWG import config loaded from "@ + p,
            "backend="@ + or_text(opt_view(config.backend), "not set"@) + " converter_path="@
                + or_text(opt_view(config.converter_path), "not set"@),
        ],
        None => Seq::<Seq<char>>::empty(),
    });
    r
}

/// The log message of a DWG import request.
pub fn import_request_message(path: &str) -> (r: String)
    ensures
        r@ == "DWG import requested for "@ + path@,
{
    let mut m = owned("DWG import requested for ");
    push_str(&mut m, path);
    m
}

} // verus!
