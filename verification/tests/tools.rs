use nodalix_cad::snapping::{OsnapState, SnapKind};
use nodalix_cad::tools::{Tool, ToolSwitch, ToolManager, ToolPhase};

#[test]
fn tools_are_listed_in_toolbar_order() {
    let all = Tool::all();
    assert_eq!(all.len(), 20);
    assert_eq!(all[0], (Tool::Select, "select", "Select"));
    assert_eq!(all[9], (Tool::Modify, "move", "Modify"));
    assert_eq!(all[19], (Tool::Extrude, "extrude", "Extrude"));
    for (i, a) in all.iter().enumerate() {
        for b in &all[i + 1..] {
            assert_ne!(a.0, b.0);
        }
    }
    assert_eq!(Tool::Block.label(), "Blocks");
    assert_eq!(Tool::Guideline.label(), "Guidelines");
    assert_eq!(Tool::FitCurve.label(), "Fit Curve");
    assert_eq!(ToolPhase::default(), ToolPhase::Idle);
}

#[test]
fn snap_kinds() {
    let state = OsnapState::default();
    assert!(SnapKind::Endpoint.allowed(&state));
    assert!(!SnapKind::Nearest.allowed(&state));
    assert!(SnapKind::Ortho.allowed(&state));
    let off = OsnapState { enabled: false, ..OsnapState::default() };
    assert!(!SnapKind::Ortho.allowed(&off));
    assert!(!SnapKind::Endpoint.allowed(&off));
    assert_eq!(SnapKind::Quadrant.label(), "QUAD");
    assert_eq!(SnapKind::Parallel.label(), "PAR");
    assert!(SnapKind::Endpoint.priority() > SnapKind::Nearest.priority());
    assert_eq!(SnapKind::Ortho.priority(), 70);
    assert_eq!(SnapKind::Midpoint.priority(), 80);
}

#[test]
fn tool_manager_switches_between_registered_tools() {
    let mut manager = ToolManager::new();
    assert_eq!(manager.active_id(), None);
    manager.register("line");
    manager.register("circle");
    manager.register("line");
    assert_eq!(
        manager.activate("arc"),
        ToolSwitch { activated: false, deactivated: None }
    );
    assert_eq!(manager.active_id(), None);
    assert_eq!(
        manager.activate("line"),
        ToolSwitch { activated: true, deactivated: None }
    );
    assert_eq!(manager.active_id(), Some("line".to_string()));
    assert_eq!(
        manager.activate("circle"),
        ToolSwitch { activated: true, deactivated: Some("line".to_string()) }
    );
    assert_eq!(
        manager.activate("circle"),
        ToolSwitch { activated: true, deactivated: Some("circle".to_string()) }
    );
    assert_eq!(
        manager.activate("arc"),
        ToolSwitch { activated: false, deactivated: None }
    );
    assert_eq!(manager.active_id(), Some("circle".to_string()));
    assert_eq!(manager.deactivate(), Some("circle".to_string()));
    assert_eq!(manager.active_id(), None);
    assert_eq!(manager.deactivate(), None);
}

#[test]
fn default_tool_manager_is_empty() {
    let mut manager = ToolManager::default();
    assert_eq!(manager.active_id(), None);
    assert!(!manager.activate("select").activated);
}
