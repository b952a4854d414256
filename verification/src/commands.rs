//! Recognition of typed commands (`block`, `insert`, `trim`, `pdf`, ...) and
//! the outcome and result enums of the editing tools.
use vstd::prelude::*;

use crate::text::{
    index_of_char, prefix_before, sub_vec, trimmed,
    chars_eq, chars_of, eq_ignore_case, is_ws, lemma_trim_end_exact, lemma_trim_start_exact,
    lemma_words_nonempty, lower, lower_vec, split_whitespace, string_of, trim, trim_vec, words,
};

verus! {

// ---------------------------------------------------------------------------
// Block commands
// ---------------------------------------------------------------------------

/// A block insertion waiting for its insertion point.
#[derive(Clone, Debug)]
pub struct BlockInsertPending {
    pub block_name: String,
}

/// What a block command asks for.
#[derive(Clone, Debug, PartialEq, Eq)]
pub enum BlockCommandOutcome {
    ActivateInsert { block_name: String },
    CreateFromSelection { block_name: String },
    Explode,
}

/// The spec-level outcome of a block command.
pub enum BlockCommandSpec {
    ActivateInsert(Seq<char>),
    CreateFromSelection(Seq<char>),
    Explode,
}

/// The view of a block command outcome.
pub open spec fn block_outcome_view(o: BlockCommandOutcome) -> BlockCommandSpec {
    match o {
        BlockCommandOutcome::ActivateInsert { block_name } => BlockCommandSpec::ActivateInsert(
            block_name@,
        ),
        BlockCommandOutcome::CreateFromSelection { block_name } =>
            BlockCommandSpec::CreateFromSelection(block_name@),
        BlockCommandOutcome::Explode => BlockCommandSpec::Explode,
    }
}

/// What a typed line means as a block command: the first word selects the
/// command (`explode` in any case or `x`; `block` in any case; `insert` in
/// any case or `i`), the second word names the block.
pub open spec fn block_command(command: Seq<char>) -> Option<BlockCommandSpec> {
    let parts = words(command);
    if parts.len() == 0 {
        None
    } else {
        let cmd = parts[0];
        if eq_ignore_case(cmd, "explode"@) || cmd == "x"@ {
            Some(BlockCommandSpec::Explode)
        } else if eq_ignore_case(cmd, "block"@) || eq_ignore_case(cmd, "insert"@) || cmd
            == "i"@ {
            if parts.len() < 2 {
                None
            } else if eq_ignore_case(cmd, "block"@) {
                Some(BlockCommandSpec::CreateFromSelection(parts[1]))
            } else {
                Some(BlockCommandSpec::ActivateInsert(parts[1]))
            }
        } else {
            None
        }
    }
}

/// The word list of `command`, with its characterisation.
fn command_words(command: &str) -> (r: Vec<Vec<char>>)
    ensures
        r@.map_values(|w: Vec<char>| w@) == words(command@),
        forall|i: int| 0 <= i < r@.len() ==> (#[trigger] r@[i])@ == words(command@)[i],
        forall|i: int| 0 <= i < r@.len() ==> (#[trigger] r@[i])@.len() > 0,
        forall|i: int| 0 <= i < r@.len() ==> trim((#[trigger] r@[i])@) == r@[i]@,
{
    let v = chars_of(command);
    let r = split_whitespace(&v);
    proof {
        lemma_words_nonempty(v@);
        let w = words(v@);
        assert forall|i: int| 0 <= i < r@.len() implies (#[trigger] r@[i])@ == words(command@)[i] by {
            assert(r@.map_values(|w: Vec<char>| w@)[i] == r@[i]@);
        }
        assert forall|i: int| 0 <= i < r@.len() implies trim((#[trigger] r@[i])@) == r@[i]@ by {
            let x = r@[i]@;
            assert(x == w[i]);
            assert forall|j: int| 0 <= j < x.len() implies !is_ws(#[trigger] x[j]) by {
                assert(x[j] == w[i][j]);
            }
            lemma_trim_start_exact(x, 0);
            assert(x.skip(0) == x);
            lemma_trim_end_exact(x, x.len() as int);
            assert(x.take(x.len() as int) == x);
        }
    }
    r
}

/// Whether the word equals `lit` ignoring ASCII case.
fn word_is(word: &Vec<char>, lit: &str) -> (r: bool)
    ensures
        r == eq_ignore_case(word@, lit@),
{
    let a = lower_vec(word);
    let b = lower_vec(&chars_of(lit));
    chars_eq(&a, &b)
}

/// Whether the word is exactly `lit`.
fn word_eq(word: &Vec<char>, lit: &str) -> (r: bool)
    ensures
        r == (word@ == lit@),
{
    chars_eq(word, &chars_of(lit))
}

/// Recognises `block <name>`, `insert <name>` / `i <name>` and `explode` /
/// `x`. The selection is not consulted.
pub fn try_execute_block_command(command: &str, selected_ids: &[u64]) -> (r: Option<
    BlockCommandOutcome,
>)
    ensures
        match r {
            Some(o) => block_command(command@) == Some(block_outcome_view(o)),
            None => block_command(command@).is_none(),
        },
{
    let parts = command_words(command);
    if parts.len() == 0 {
        return None;
    }
    let cmd = &parts[0];
    if word_is(cmd, "explode") || word_eq(cmd, "x") {
        return Some(BlockCommandOutcome::Explode);
    }
    if word_is(cmd, "block") {
        if parts.len() < 2 {
            return None;
        }
        let name = trim_vec(&parts[1]);
        return Some(BlockCommandOutcome::CreateFromSelection { block_name: string_of(&name) });
    }
    if word_is(cmd, "insert") || word_eq(cmd, "i") {
        if parts.len() < 2 {
            return None;
        }
        let name = trim_vec(&parts[1]);
        proof {
            if eq_ignore_case(cmd@, "block"@) {
                assert(false);
            }
        }
        return Some(BlockCommandOutcome::ActivateInsert { block_name: string_of(&name) });
    }
    None
}

// ---------------------------------------------------------------------------
// Trim / extend
// ---------------------------------------------------------------------------

/// Which of the two edge tools a command activates.
#[derive(Clone, Copy, Debug, PartialEq, Eq, Structural)]
pub enum ToolActivation {
    Trim,
    Extend,
}

/// The result of a click with the trim or extend tool.
#[derive(Clone, Copy, Debug, PartialEq, Eq, Structural)]
pub enum TrimExtendClickResult {
    BoundarySelected,
    Applied,
    NoEdge,
    TargetDenied,
    GeometryFailed,
}

/// `trim`/`tr` and `extend`/`ex`, in any case and with surrounding spaces.
pub open spec fn trim_extend_command(command: Seq<char>) -> Option<ToolActivation> {
    let c = lower(trim(command));
    if c == "trim"@ || c == "tr"@ {
        Some(ToolActivation::Trim)
    } else if c == "extend"@ || c == "ex"@ {
        Some(ToolActivation::Extend)
    } else {
        None
    }
}

/// The trimmed, lower-cased characters of a command line.
fn normalized_command(command: &str) -> (r: Vec<char>)
    ensures
        r@ == lower(trim(command@)),
{
    let v = chars_of(command);
    let t = trim_vec(&v);
    lower_vec(&t)
}

pub fn try_execute_trim_extend_command(command: &str) -> (r: Option<ToolActivation>)
    ensures
        r == trim_extend_command(command@),
{
    let c = normalized_command(command);
    if word_eq(&c, "trim") || word_eq(&c, "tr") {
        Some(ToolActivation::Trim)
    } else if word_eq(&c, "extend") || word_eq(&c, "ex") {
        Some(ToolActivation::Extend)
    } else {
        None
    }
}

// ---------------------------------------------------------------------------
// PDF export
// ---------------------------------------------------------------------------

/// What a PDF export draws.
#[derive(Clone, Copy, Debug, PartialEq, Eq, Structural)]
pub enum PdfExportTarget {
    ActiveView,
    ModelSpace,
    ActiveLayout,
}

/// `pdf`, `exportpdf`, `plot`; `pdf model`, `pdf modelspace`; `pdf layout`,
/// `pdf paper`, in any case and with surrounding spaces.
pub open spec fn export_command(command: Seq<char>) -> Option<PdfExportTarget> {
    let c = lower(trim(command));
    if c == "pdf"@ || c == "exportpdf"@ || c == "plot"@ {
        Some(PdfExportTarget::ActiveView)
    } else if c == "pdf model"@ || c == "pdf modelspace"@ {
        Some(PdfExportTarget::ModelSpace)
    } else if c == "pdf layout"@ || c == "pdf paper"@ {
        Some(PdfExportTarget::ActiveLayout)
    } else {
        None
    }
}

pub fn try_parse_export_command(command: &str) -> (r: Option<PdfExportTarget>)
    ensures
        r == export_command(command@),
{
    let c = normalized_command(command);
    if word_eq(&c, "pdf") || word_eq(&c, "exportpdf") || word_eq(&c, "plot") {
        Some(PdfExportTarget::ActiveView)
    } else if word_eq(&c, "pdf model") || word_eq(&c, "pdf modelspace") {
        Some(PdfExportTarget::ModelSpace)
    } else if word_eq(&c, "pdf layout") || word_eq(&c, "pdf paper") {
        Some(PdfExportTarget::ActiveLayout)
    } else {
        None
    }
}

// ---------------------------------------------------------------------------
// Results of the other editing tools
// ---------------------------------------------------------------------------

/// The result of a click with the fillet or chamfer tool.
#[derive(Clone, Copy, Debug, PartialEq, Eq, Structural)]
pub enum FilletChamferClickResult {
    FirstLineSelected,
    Applied,
    NoEdge,
    LockedDenied,
    GeometryFailed,
    SameLine,
}

/// Which corner tool a command activates.
#[derive(Clone, Copy, Debug, PartialEq, Eq, Structural)]
pub enum FilletChamferCommandOutcome {
    ActivateFillet,
    ActivateChamfer,
}

/// The result of a click with the hatch tool.
#[derive(Clone, Copy, Debug, PartialEq, Eq, Structural)]
pub enum HatchClickResult {
    BoundarySelected,
    Applied,
    NoBoundary,
    HiddenDenied,
    ActiveLayerLocked,
    GeometryFailed,
}

/// What a hatch command asks for.
#[derive(Clone, Copy, Debug, PartialEq, Eq, Structural)]
pub enum HatchCommandOutcome {
    Activate,
}

/// Why an offset could not be committed.
#[derive(Clone, Copy, Debug, PartialEq, Eq, Structural)]
pub enum OffsetCommitError {
    HistoryBusy,
}

/// The result of a click with the offset tool.
#[derive(Clone, Copy, Debug, PartialEq, Eq, Structural)]
pub enum OffsetClickResult {
    SourceSelected,
    Committed,
    NoEntity,
    UnsupportedEntity,
    CommitFailed,
    InvalidDistance,
}

/// What an offset command did.
#[derive(Clone, Copy, Debug, PartialEq, Eq, Structural)]
pub enum OffsetCommandResult {
    NotHandled,
    Handled,
    SetDistance,
    Applied,
}


// ---------------------------------------------------------------------------
// Commands with numeric arguments
// ---------------------------------------------------------------------------

/// The words of a command after its first, as strings.
fn words_after_first(parts: &Vec<Vec<char>>) -> (r: Vec<String>)
    requires
        parts.len() > 0,
    ensures
        r@.map_values(|w: String| w@) == parts@.map_values(|w: Vec<char>| w@).drop_first(),
{
    let ghost pv = parts@.map_values(|w: Vec<char>| w@);
    let mut r: Vec<String> = Vec::new();
    let mut i: usize = 1;
    while i < parts.len()
        invariant
            1 <= i <= parts.len(),
            pv == parts@.map_values(|w: Vec<char>| w@),
            r@.map_values(|w: String| w@) == pv.subrange(1, i as int),
        decreases parts.len() - i,
    {
        let w = string_of(&parts[i]);
        let ghost before = r@.map_values(|w: String| w@);
        r.push(w);
        proof {
            assert(pv[i as int] == parts@[i as int]@);
            assert(pv.subrange(1, i + 1) == pv.subrange(1, i as int).push(pv[i as int]));
            assert(r@.map_values(|w: String| w@) =~= before.push(pv[i as int]));
        }
        i += 1;
    }
    assert(pv.subrange(1, parts.len() as int) == pv.drop_first());
    r
}

/// The transformation a modify command applies.
#[derive(Clone, Copy, Debug, PartialEq, Eq, Structural)]
pub enum ModifyVerb {
    Rotate,
    Scale,
    Mirror,
    Move,
    Copy,
}

/// The verb a command word names: `rotate`/`ro`, `scale`/`sc`,
/// `mirror`/`mi`, `move`/`m`, `copy`/`co`/`cp` (in lower case).
pub open spec fn modify_verb(w: Seq<char>) -> Option<ModifyVerb> {
    if w == "rotate"@ || w == "ro"@ {
        Some(ModifyVerb::Rotate)
    } else if w == "scale"@ || w == "sc"@ {
        Some(ModifyVerb::Scale)
    } else if w == "mirror"@ || w == "mi"@ {
        Some(ModifyVerb::Mirror)
    } else if w == "move"@ || w == "m"@ {
        Some(ModifyVerb::Move)
    } else if w == "copy"@ || w == "co"@ || w == "cp"@ {
        Some(ModifyVerb::Copy)
    } else {
        None
    }
}

/// A modify command and its two arguments as typed: the base point and the
/// angle, factor, second axis point or target point.
#[derive(Clone, Debug)]
pub struct ModifyCommand {
    pub verb: ModifyVerb,
    pub first: String,
    pub second: String,
}

/// What a typed line means as a modify command (`rotate 0,0 45`,
/// `scale 0,0 2`, `mirror 0,0 100,0`, `move 0,0 5,5`, `copy 0,0 5,5`): a
/// known verb followed by at least two more words.
pub open spec fn modify_command(command: Seq<char>) -> Option<(ModifyVerb, Seq<char>, Seq<char>)> {
    let parts = words(command);
    if parts.len() >= 3 {
        match modify_verb(parts[0]) {
            Some(v) => Some((v, parts[1], parts[2])),
            None => None,
        }
    } else {
        None
    }
}

/// The verb words of the modify commands: `rotate`/`ro` rotate,
/// `scale`/`sc` scale, `mirror`/`mi` mirror, `move`/`m` move and
/// `copy`/`co`/`cp` copy; no other word is a verb, so a copy is never taken
/// for a move. A command with a verb and two more words keeps those words as
/// its arguments.
pub proof fn law_modify_verbs(w: Seq<char>, command: Seq<char>)
    ensures
        modify_verb(w) == Some(ModifyVerb::Rotate) <==> (w == "rotate"@ || w == "ro"@),
        modify_verb(w) == Some(ModifyVerb::Scale) <==> (w == "scale"@ || w == "sc"@),
        modify_verb(w) == Some(ModifyVerb::Mirror) <==> (w == "mirror"@ || w == "mi"@),
        modify_verb(w) == Some(ModifyVerb::Move) <==> (w == "move"@ || w == "m"@),
        modify_verb(w) == Some(ModifyVerb::Copy) <==> (w == "copy"@ || w == "co"@ || w == "cp"@),
        words(command).len() >= 3 && (words(command)[0] == "copy"@ || words(command)[0] == "co"@
            || words(command)[0] == "cp"@) ==> modify_command(command) == Some(
            (ModifyVerb::Copy, words(command)[1], words(command)[2]),
        ),
        words(command).len() >= 3 && (words(command)[0] == "move"@ || words(command)[0] == "m"@)
            ==> modify_command(command) == Some(
            (ModifyVerb::Move, words(command)[1], words(command)[2]),
        ),
        words(command).len() < 3 ==> modify_command(command).is_none(),
{
    reveal_strlit("rotate");
    reveal_strlit("ro");
    reveal_strlit("scale");
    reveal_strlit("sc");
    reveal_strlit("mirror");
    reveal_strlit("mi");
    reveal_strlit("move");
    reveal_strlit("m");
    reveal_strlit("copy");
    reveal_strlit("co");
    reveal_strlit("cp");
    assert("rotate"@.len() == 6);
    assert("rotate"@[0] == 'r');
    assert("rotate"@[1] == 'o');
    assert("rotate"@[2] == 't');
    assert("ro"@.len() == 2);
    assert("ro"@[0] == 'r');
    assert("ro"@[1] == 'o');
    assert("scale"@.len() == 5);
    assert("scale"@[0] == 's');
    assert("scale"@[1] == 'c');
    assert("scale"@[2] == 'a');
    assert("sc"@.len() == 2);
    assert("sc"@[0] == 's');
    assert("sc"@[1] == 'c');
    assert("mirror"@.len() == 6);
    assert("mirror"@[0] == 'm');
    assert("mirror"@[1] == 'i');
    assert("mirror"@[2] == 'r');
    assert("mi"@.len() == 2);
    assert("mi"@[0] == 'm');
    assert("mi"@[1] == 'i');
    assert("move"@.len() == 4);
    assert("move"@[0] == 'm');
    assert("move"@[1] == 'o');
    assert("move"@[2] == 'v');
    assert("m"@.len() == 1);
    assert("m"@[0] == 'm');
    assert("copy"@.len() == 4);
    assert("copy"@[0] == 'c');
    assert("copy"@[1] == 'o');
    assert("copy"@[2] == 'p');
    assert("co"@.len() == 2);
    assert("co"@[0] == 'c');
    assert("co"@[1] == 'o');
    assert("cp"@.len() == 2);
    assert("cp"@[0] == 'c');
    assert("cp"@[1] == 'p');
}

fn verb_of(word: &Vec<char>) -> (r: Option<ModifyVerb>)
    ensures
        r == modify_verb(word@),
{
    if word_eq(word, "rotate") || word_eq(word, "ro") {
        Some(ModifyVerb::Rotate)
    } else if word_eq(word, "scale") || word_eq(word, "sc") {
        Some(ModifyVerb::Scale)
    } else if word_eq(word, "mirror") || word_eq(word, "mi") {
        Some(ModifyVerb::Mirror)
    } else if word_eq(word, "move") || word_eq(word, "m") {
        Some(ModifyVerb::Move)
    } else if word_eq(word, "copy") || word_eq(word, "co") || word_eq(word, "cp") {
        Some(ModifyVerb::Copy)
    } else {
        None
    }
}

/// Recognises a modify command typed in the command bar.
pub fn parse_modify_command(command: &str) -> (r: Option<ModifyCommand>)
    ensures
        match r {
            Some(c) => modify_command(command@) == Some((c.verb, c.first@, c.second@)),
            None => modify_command(command@).is_none(),
        },
{
    let parts = command_words(command);
    if parts.len() < 3 {
        return None;
    }
    match verb_of(&parts[0]) {
        Some(verb) => Some(
            ModifyCommand { verb, first: string_of(&parts[1]), second: string_of(&parts[2]) },
        ),
        None => None,
    }
}

/// The two coordinates of a typed point `x,y`: the text before and after the
/// first comma, each trimmed.
pub open spec fn point_fields(value: Seq<char>) -> Option<(Seq<char>, Seq<char>)> {
    let k = index_of_char(value, ',') as int;
    if k >= value.len() {
        None
    } else {
        Some((trim(value.take(k)), trim(value.skip(k + 1))))
    }
}

/// Splits a typed point into its two coordinate texts.
pub fn split_command_point(value: &str) -> (r: Option<(String, String)>)
    ensures
        match r {
            Some((x, y)) => point_fields(value@) == Some((x@, y@)),
            None => point_fields(value@).is_none(),
        },
{
    let v = chars_of(value);
    let k = prefix_before(&v, ',');
    if k >= v.len() {
        return None;
    }
    let head = sub_vec(&v, 0, k);
    let tail = sub_vec(&v, k + 1, v.len());
    assert(head@ == v@.take(k as int));
    assert(tail@ == v@.skip(k + 1));
    let x = trim_vec(&head);
    let y = trim_vec(&tail);
    Some((string_of(&x), string_of(&y)))
}

/// The arguments of an offset command (`offset 10`, `o 10`,
/// `offset 10 100,50`): the words after the verb.
pub open spec fn offset_command(command: Seq<char>) -> Option<Seq<Seq<char>>> {
    let parts = words(command);
    if parts.len() > 0 && (parts[0] == "offset"@ || parts[0] == "o"@) {
        Some(parts.drop_first())
    } else {
        None
    }
}

pub fn parse_offset_command(command: &str) -> (r: Option<Vec<String>>)
    ensures
        match r {
            Some(args) => offset_command(command@) == Some(args@.map_values(|w: String| w@)),
            None => offset_command(command@).is_none(),
        },
{
    let parts = command_words(command);
    if parts.len() > 0 && (word_eq(&parts[0], "offset") || word_eq(&parts[0], "o")) {
        Some(words_after_first(&parts))
    } else {
        None
    }
}

/// A fillet (`fillet`/`f`) or chamfer (`chamfer`/`cha`) command and the
/// words after its verb (radius, or the two distances).
pub open spec fn fillet_chamfer_command(command: Seq<char>) -> Option<
    (FilletChamferCommandOutcome, Seq<Seq<char>>),
> {
    let parts = words(command);
    if parts.len() == 0 {
        None
    } else if parts[0] == "fillet"@ || parts[0] == "f"@ {
        Some((FilletChamferCommandOutcome::ActivateFillet, parts.drop_first()))
    } else if parts[0] == "chamfer"@ || parts[0] == "cha"@ {
        Some((FilletChamferCommandOutcome::ActivateChamfer, parts.drop_first()))
    } else {
        None
    }
}

pub fn parse_fillet_chamfer_command(command: &str) -> (r: Option<
    (FilletChamferCommandOutcome, Vec<String>),
>)
    ensures
        match r {
            Some((o, args)) => fillet_chamfer_command(command@) == Some(
                (o, args@.map_values(|w: String| w@)),
            ),
            None => fillet_chamfer_command(command@).is_none(),
        },
{
    let parts = command_words(command);
    if parts.len() == 0 {
        None
    } else if word_eq(&parts[0], "fillet") || word_eq(&parts[0], "f") {
        Some((FilletChamferCommandOutcome::ActivateFillet, words_after_first(&parts)))
    } else if word_eq(&parts[0], "chamfer") || word_eq(&parts[0], "cha") {
        Some((FilletChamferCommandOutcome::ActivateChamfer, words_after_first(&parts)))
    } else {
        None
    }
}

/// A hatch command (`hatch`, `h` or `bhatch`) and the words after its verb
/// (pattern, scale, angle).
pub open spec fn hatch_command(command: Seq<char>) -> Option<Seq<Seq<char>>> {
    let parts = words(command);
    if parts.len() > 0 && (parts[0] == "hatch"@ || parts[0] == "h"@ || parts[0] == "bhatch"@) {
        Some(parts.drop_first())
    } else {
        None
    }
}

pub fn parse_hatch_command(command: &str) -> (r: Option<Vec<String>>)
    ensures
        match r {
            Some(args) => hatch_command(command@) == Some(args@.map_values(|w: String| w@)),
            None => hatch_command(command@).is_none(),
        },
{
    let parts = command_words(command);
    if parts.len() > 0 && (word_eq(&parts[0], "hatch") || word_eq(&parts[0], "h") || word_eq(
        &parts[0],
        "bhatch",
    )) {
        Some(words_after_first(&parts))
    } else {
        None
    }
}

/// The hatch pattern a hatch command names (`solid` or `ansi31`, in any
/// ASCII case).
#[derive(Clone, Copy, Debug, PartialEq, Eq, Structural)]
pub enum HatchPatternName {
    Solid,
    Ansi31,
}

pub open spec fn hatch_pattern(word: Seq<char>) -> Option<HatchPatternName> {
    if lower(word) == "solid"@ {
        Some(HatchPatternName::Solid)
    } else if lower(word) == "ansi31"@ {
        Some(HatchPatternName::Ansi31)
    } else {
        None
    }
}

pub fn hatch_pattern_name(word: &str) -> (r: Option<HatchPatternName>)
    ensures
        r == hatch_pattern(word@),
{
    let w = lower_vec(&chars_of(word));
    if word_eq(&w, "solid") {
        Some(HatchPatternName::Solid)
    } else if word_eq(&w, "ansi31") {
        Some(HatchPatternName::Ansi31)
    } else {
        None
    }
}

} // verus!
