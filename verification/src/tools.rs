//! The drawing tools of the toolbar and the small state enums that the tool
//! code passes around.
use vstd::prelude::*;
use crate::text::{opt_view, str_eq};

verus! {

/// A toolbar tool.
#[derive(Clone, Copy, Debug, PartialEq, Eq, Structural)]
pub enum Tool {
    Select,
    Line,
    Polyline,
    Rectangle,
    Circle,
    Arc,
    Dimension,
    Text,
    Measure,
    Modify,
    Block,
    Hatch,
    Table,
    Parametric,
    Guideline,
    Pan,
    Orbit,
    SectionFromMesh,
    FitCurve,
    Extrude,
}

/// The toolbar order of the tools.
pub open spec fn tool_order() -> Seq<Tool> {
    seq![
        Tool::Select,
        Tool::Line,
        Tool::Polyline,
        Tool::Rectangle,
        Tool::Circle,
        Tool::Arc,
        Tool::Dimension,
        Tool::Text,
        Tool::Measure,
        Tool::Modify,
        Tool::Block,
        Tool::Hatch,
        Tool::Table,
        Tool::Parametric,
        Tool::Guideline,
        Tool::Pan,
        Tool::Orbit,
        Tool::SectionFromMesh,
        Tool::FitCurve,
        Tool::Extrude,
    ]
}

/// The command identifier of a tool.
pub open spec fn tool_id(t: Tool) -> Seq<char> {
    match t {
        Tool::Select => "select"@,
        Tool::Line => "line"@,
        Tool::Polyline => "polyline"@,
        Tool::Rectangle => "rectangle"@,
        Tool::Circle => "circle"@,
        Tool::Arc => "arc"@,
        Tool::Dimension => "dimension"@,
        Tool::Text => "text"@,
        Tool::Measure => "measure"@,
        Tool::Modify => "move"@,
        Tool::Block => "block"@,
        Tool::Hatch => "hatch"@,
        Tool::Table => "table"@,
        Tool::Parametric => "parametric"@,
        Tool::Guideline => "guideline"@,
        Tool::Pan => "pan"@,
        Tool::Orbit => "orbit"@,
        Tool::SectionFromMesh => "section"@,
        Tool::FitCurve => "fit-curve"@,
        Tool::Extrude => "extrude"@,
    }
}

/// The display label of a tool.
pub open spec fn tool_label(t: Tool) -> Seq<char> {
    match t {
        Tool::Select => "Select"@,
        Tool::Line => "Line"@,
        Tool::Polyline => "Polyline"@,
        Tool::Rectangle => "Rectangle"@,
        Tool::Circle => "Circle"@,
        Tool::Arc => "Arc"@,
        Tool::Dimension => "Dimension"@,
        Tool::Text => "Text"@,
        Tool::Measure => "Measure"@,
        Tool::Modify => "Modify"@,
        Tool::Block => "Blocks"@,
        Tool::Hatch => "Hatch"@,
        Tool::Table => "Table"@,
        Tool::Parametric => "Parametric"@,
        Tool::Guideline => "Guidelines"@,
        Tool::Pan => "Pan"@,
        Tool::Orbit => "Orbit"@,
        Tool::SectionFromMesh => "Section"@,
        Tool::FitCurve => "Fit Curve"@,
        Tool::Extrude => "Extrude"@,
    }
}

fn entry(t: Tool, id: &'static str, label: &'static str) -> (r: (Tool, &'static str, &'static str))
    requires
        id@ == tool_id(t),
        label@ == tool_label(t),
    ensures
        r.0 == t,
        r.1@ == tool_id(t),
        r.2@ == tool_label(t),
{
    (t, id, label)
}

impl Tool {
    /// Every tool with its command identifier and label, in toolbar order.
    pub fn all() -> (r: Vec<(Tool, &'static str, &'static str)>)
        ensures
            r@.len() == tool_order().len(),
            forall|i: int|
                0 <= i < r@.len() ==> {
                    &&& (#[trigger] r@[i]).0 == tool_order()[i]
                    &&& r@[i].1@ == tool_id(r@[i].0)
                    &&& r@[i].2@ == tool_label(r@[i].0)
                },
    {
        let mut r: Vec<(Tool, &'static str, &'static str)> = Vec::new();
        r.push(entry(Tool::Select, "select", "Select"));
        r.push(entry(Tool::Line, "line", "Line"));
        r.push(entry(Tool::Polyline, "polyline", "Polyline"));
        r.push(entry(Tool::Rectangle, "rectangle", "Rectangle"));
        r.push(entry(Tool::Circle, "circle", "Circle"));
        r.push(entry(Tool::Arc, "arc", "Arc"));
        r.push(entry(Tool::Dimension, "dimension", "Dimension"));
        r.push(entry(Tool::Text, "text", "Text"));
        r.push(entry(Tool::Measure, "measure", "Measure"));
        r.push(entry(Tool::Modify, "move", "Modify"));
        r.push(entry(Tool::Block, "block", "Blocks"));
        r.push(entry(Tool::Hatch, "hatch", "Hatch"));
        r.push(entry(Tool::Table, "table", "Table"));
        r.push(entry(Tool::Parametric, "parametric", "Parametric"));
        r.push(entry(Tool::Guideline, "guideline", "Guidelines"));
        r.push(entry(Tool::Pan, "pan", "Pan"));
        r.push(entry(Tool::Orbit, "orbit", "Orbit"));
        r.push(entry(Tool::SectionFromMesh, "section", "Section"));
        r.push(entry(Tool::FitCurve, "fit-curve", "Fit Curve"));
        r.push(entry(Tool::Extrude, "extrude", "Extrude"));
        r
    }

    /// The label that `all` lists for this tool.
    pub fn label(self) -> (r: &'static str)
        ensures
            r@ == tool_label(self),
    {
        let all = Tool::all();
        let mut i: usize = 0;
        while i < all.len()
            invariant
                all@.len() == tool_order().len(),
                forall|j: int|
                    0 <= j < all@.len() ==> {
                        &&& (#[trigger] all@[j]).0 == tool_order()[j]
                        &&& all@[j].1@ == tool_id(all@[j].0)
                        &&& all@[j].2@ == tool_label(all@[j].0)
                    },
                i <= all.len(),
                forall|j: int| 0 <= j < i ==> (#[trigger] all@[j]).0 != self,
            decreases all.len() - i,
        {
            if all[i].0 == self {
                return all[i].2;
            }
            i += 1;
        }
        proof {
            lemma_tool_order_complete(self);
            let k = choose|k: int| 0 <= k < tool_order().len() && tool_order()[k] == self;
            assert(all@[k].0 == self);
        }
        "Select"
    }
}

/// Every tool stands in `tool_order`.
pub proof fn lemma_tool_order_complete(t: Tool)
    ensures
        exists|k: int| 0 <= k < tool_order().len() && tool_order()[k] == t,
{
    let o = tool_order();
    match t {
        Tool::Select => assert(o[0] == t),
        Tool::Line => assert(o[1] == t),
        Tool::Polyline => assert(o[2] == t),
        Tool::Rectangle => assert(o[3] == t),
        Tool::Circle => assert(o[4] == t),
        Tool::Arc => assert(o[5] == t),
        Tool::Dimension => assert(o[6] == t),
        Tool::Text => assert(o[7] == t),
        Tool::Measure => assert(o[8] == t),
        Tool::Modify => assert(o[9] == t),
        Tool::Block => assert(o[10] == t),
        Tool::Hatch => assert(o[11] == t),
        Tool::Table => assert(o[12] == t),
        Tool::Parametric => assert(o[13] == t),
        Tool::Guideline => assert(o[14] == t),
        Tool::Pan => assert(o[15] == t),
        Tool::Orbit => assert(o[16] == t),
        Tool::SectionFromMesh => assert(o[17] == t),
        Tool::FitCurve => assert(o[18] == t),
        Tool::Extrude => assert(o[19] == t),
    }
}

/// `Tool::all` lists every tool, and each exactly once.
pub proof fn law_all_lists_each_tool_once(t: Tool)
    ensures
        exists|k: int| 0 <= k < tool_order().len() && tool_order()[k] == t,
        forall|i: int, j: int|
            0 <= i < tool_order().len() && 0 <= j < tool_order().len() && tool_order()[i]
                == tool_order()[j] ==> i == j,
{
    lemma_tool_order_complete(t);
    let o = tool_order();
    assert(o.no_duplicates()) by {
        reveal_with_fuel(Seq::no_duplicates, 1);
    }
}

/// Where a two-click tool stands.
#[derive(Clone, Copy, Debug, PartialEq, Eq, Structural)]
pub enum ToolPhase {
    Idle,
    AwaitingFirstPoint,
    AwaitingSecondPoint,
    Dragging,
}

impl Default for ToolPhase {
    fn default() -> (r: Self)
        ensures
            r == ToolPhase::Idle,
    {
        ToolPhase::Idle
    }
}

/// A key press delivered to the active tool.
#[derive(Clone, Copy, Debug)]
pub struct CADKeyEvent {
    pub key: &'static str,
    pub shift: bool,
    pub ctrl: bool,
}

/// How the arc tool takes its points.
#[derive(Clone, Copy, Debug, PartialEq, Eq, Structural)]
pub enum ArcUiMode {
    ThreePoint,
    CenterStartEnd,
}

/// Which dimension the dimension tool creates.
#[derive(Clone, Copy, Debug, PartialEq, Eq, Structural)]
pub enum DimensionCreationMode {
    Linear,
    Aligned,
    Radius,
    Diameter,
}

/// The tools known by their identifiers, and the one that is active. The
/// tools' own hooks (what a tool does when it is activated or deactivated)
/// are run by the caller, as `activate` and `deactivate` report them.
pub struct ToolManager {
    tools: Vec<String>,
    active: Option<String>,
}

/// What a call of `ToolManager::activate` did: whether the tool is known and
/// was made active, and which tool was deactivated before it.
#[derive(Clone, Debug, PartialEq, Eq)]
pub struct ToolSwitch {
    pub activated: bool,
    pub deactivated: Option<String>,
}

impl ToolManager {
    /// The identifiers of the registered tools.
    pub closed spec fn registered(self) -> Set<Seq<char>> {
        self.tools@.map_values(|t: String| t@).to_set()
    }

    /// The identifier of the active tool.
    pub closed spec fn active(self) -> Option<Seq<char>> {
        opt_view(self.active)
    }

    /// Only a registered tool is ever active.
    #[verifier::type_invariant]
    spec fn active_is_registered(self) -> bool {
        match self.active {
            Some(a) => self.tools@.map_values(|t: String| t@).contains(a@),
            None => true,
        }
    }

    /// No tool is registered and none is active.
    pub fn new() -> (m: Self)
        ensures
            m.registered() == Set::<Seq<char>>::empty(),
            m.active() is None,
    {
        let m = ToolManager { tools: Vec::new(), active: None };
        assert(m.tools@.map_values(|t: String| t@).to_set() =~= Set::<Seq<char>>::empty());
        m
    }

    fn position(&self, id: &str) -> (r: Option<usize>)
        ensures
            match r {
                Some(i) => i < self.tools@.len() && self.tools@[i as int]@ == id@,
                None => !self.tools@.map_values(|t: String| t@).contains(id@),
            },
    {
        let mut i: usize = 0;
        while i < self.tools.len()
            invariant
                i <= self.tools@.len(),
                forall|j: int| 0 <= j < i ==> self.tools@[j]@ != id@,
            decreases self.tools@.len() - i,
        {
            if str_eq(self.tools[i].as_str(), id) {
                return Some(i);
            }
            i += 1;
        }
        proof {
            let names = self.tools@.map_values(|t: String| t@);
            if names.contains(id@) {
                let k = choose|k: int| 0 <= k < names.len() && names[k] == id@;
                assert(self.tools@[k]@ == id@);
            }
        }
        None
    }

    /// Registers a tool under its identifier; a tool registered again under
    /// the same identifier takes the place of the earlier one.
    pub fn register(&mut self, id: &str)
        ensures
            final(self).registered() == old(self).registered().insert(id@),
            final(self).active() == old(self).active(),
    {
        proof {
            use_type_invariant(&*self);
        }
        let ghost before = self.tools@.map_values(|t: String| t@);
        let found = self.position(id);
        if found.is_none() {
            let mut active: Option<String> = None;
            std::mem::swap(&mut active, &mut self.active);
            let mut tools: Vec<String> = Vec::new();
            std::mem::swap(&mut tools, &mut self.tools);
            tools.push(id.to_string());
            self.tools = tools;
            proof {
                assert(self.tools@.map_values(|t: String| t@) =~= before.push(id@));
                assert(before.push(id@).to_set() =~= before.to_set().insert(id@)) by {
                    assert forall|x: Seq<char>| before.push(id@).contains(x) <==> before.contains(x)
                        || x == id@ by {
                        if before.contains(x) {
                            let k = choose|k: int| 0 <= k < before.len() && before[k] == x;
                            assert(before.push(id@)[k] == x);
                        }
                        if x == id@ {
                            assert(before.push(id@)[before.len() as int] == x);
                        }
                    }
                }
                if active is Some {
                    let a = active->0;
                    let k = choose|k: int| 0 <= k < before.len() && before[k] == a@;
                    assert(before.push(id@)[k] == a@);
                }
            }
            self.active = active;
        } else {
            proof {
                assert(before[found->0 as int] == id@);
                assert(before.to_set() =~= before.to_set().insert(id@));
            }
        }
    }

    /// Makes the tool with this identifier active, deactivating the active
    /// tool first (also when it is the same tool). An unknown identifier
    /// changes nothing and is reported as not activated.
    pub fn activate(&mut self, id: &str) -> (r: ToolSwitch)
        ensures
            r.activated == old(self).registered().contains(id@),
            final(self).registered() == old(self).registered(),
            r.activated ==> final(self).active() == Some(id@) && opt_view(r.deactivated) == old(
                self,
            ).active(),
            !r.activated ==> final(self).active() == old(self).active() && r.deactivated is None,
    {
        proof {
            use_type_invariant(&*self);
        }
        match self.position(id) {
            None => ToolSwitch { activated: false, deactivated: None },
            Some(i) => {
                let name = self.tools[i].clone();
                let previous = self.active.clone();
                proof {
                    assert(self.tools@.map_values(|t: String| t@)[i as int] == name@);
                }
                self.active = Some(name);
                ToolSwitch { activated: true, deactivated: previous }
            },
        }
    }

    /// The identifier of the active tool; it is always a registered one.
    pub fn active_id(&self) -> (r: Option<String>)
        ensures
            opt_view(r) == self.active(),
            r matches Some(a) ==> self.registered().contains(a@),
    {
        proof {
            use_type_invariant(self);
        }
        self.active.clone()
    }

    /// Leaves no tool active and gives the one that was, whose deactivation
    /// hook is then due.
    pub fn deactivate(&mut self) -> (r: Option<String>)
        ensures
            opt_view(r) == old(self).active(),
            final(self).active() is None,
            final(self).registered() == old(self).registered(),
    {
        let mut previous: Option<String> = None;
        std::mem::swap(&mut previous, &mut self.active);
        previous
    }
}

impl Default for ToolManager {
    fn default() -> (m: Self)
        ensures
            m.registered() == Set::<Seq<char>>::empty(),
            m.active() is None,
    {
        ToolManager::new()
    }
}

} // verus!
