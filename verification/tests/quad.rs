use cubic::quad::{grown_instance_capacity, CommandKind, QuadPlan, QuadSource, UNIT_QUAD, UNIT_QUAD_INDICES};

#[test]
fn unit_quad_geometry_is_a_solid_square() {
    assert_eq!(UNIT_QUAD.len(), 4);
    assert_eq!(UNIT_QUAD_INDICES.len(), 6);
    // The two triangles share exactly the quad's four corners.
    for index in UNIT_QUAD_INDICES {
        assert!(index < 4, "index {index} out of range");
    }
    let used: std::collections::HashSet<u16> = UNIT_QUAD_INDICES.into_iter().collect();
    assert_eq!(used.len(), 4, "both triangles must cover all four corners");
}

#[test]
fn unit_quad_corners_span_the_unit_square() {
    assert_eq!(UNIT_QUAD, [[0, 0], [1, 0], [1, 1], [0, 1]]);
}

use CommandKind::{Clear, Rect, Text};

#[test]
fn plan_of_empty_list_uses_default_clear() {
    let plan = QuadPlan::from_kinds(&[]);
    assert_eq!(plan.clear, None);
    assert!(plan.instances.is_empty());
}

#[test]
fn plan_first_clear_becomes_load_op_without_an_instance() {
    let plan = QuadPlan::from_kinds(&[Clear]);
    assert_eq!(plan.clear, Some(0));
    assert!(plan.instances.is_empty());
}

#[test]
fn plan_rects_become_instanced_quads_in_order() {
    let plan = QuadPlan::from_kinds(&[Clear, Rect, Rect]);
    assert_eq!(plan.clear, Some(0));
    assert_eq!(plan.instances, vec![QuadSource::Rect(1), QuadSource::Rect(2)]);
}

#[test]
fn plan_content_before_first_clear_is_wiped() {
    let plan = QuadPlan::from_kinds(&[Rect, Clear, Rect]);
    assert_eq!(plan.clear, Some(1));
    assert_eq!(plan.instances, vec![QuadSource::Rect(2)]);
}

#[test]
fn plan_later_clear_repaints_the_whole_screen() {
    let plan = QuadPlan::from_kinds(&[Clear, Rect, Clear]);
    assert_eq!(plan.clear, Some(0));
    assert_eq!(plan.instances, vec![QuadSource::Rect(1), QuadSource::Clear(2)]);
}

#[test]
fn plan_text_commands_produce_no_quads() {
    let plan = QuadPlan::from_kinds(&[Clear, Text, Rect]);
    assert_eq!(plan.instances, vec![QuadSource::Rect(2)]);
}

#[test]
fn plan_without_clear_draws_every_rect() {
    let plan = QuadPlan::from_kinds(&[Rect, Text, Rect]);
    assert_eq!(plan.clear, None);
    assert_eq!(plan.instances, vec![QuadSource::Rect(0), QuadSource::Rect(2)]);
}

#[test]
fn plan_first_clear_wipes_rects_drawn_before_it() {
    let plan = QuadPlan::from_kinds(&[Rect, Rect, Clear, Text, Rect, Clear, Rect]);
    assert_eq!(plan.clear, Some(2));
    assert_eq!(
        plan.instances,
        vec![QuadSource::Rect(4), QuadSource::Clear(5), QuadSource::Rect(6)]
    );
}

#[test]
fn plan_many_rects_batch_into_single_instance_list() {
    let mut kinds = vec![Clear];
    kinds.extend(std::iter::repeat(Rect).take(10_000));
    let plan = QuadPlan::from_kinds(&kinds);
    assert_eq!(plan.instances.len(), 10_000, "one instance per rect");
    for (k, source) in plan.instances.iter().enumerate() {
        assert_eq!(*source, QuadSource::Rect(k + 1));
    }
}

#[test]
fn capacity_is_kept_when_it_already_fits() {
    assert_eq!(grown_instance_capacity(8, 8), 8);
    assert_eq!(grown_instance_capacity(8, 3), 8);
    assert_eq!(grown_instance_capacity(0, 0), 0);
}

#[test]
fn capacity_grows_to_a_power_of_two_at_least_doubling() {
    assert_eq!(grown_instance_capacity(0, 1), 2);
    assert_eq!(grown_instance_capacity(0, 5), 8);
    assert_eq!(grown_instance_capacity(4, 5), 8);
    assert_eq!(grown_instance_capacity(8, 9), 16);
    assert_eq!(grown_instance_capacity(2, 100), 128);
    assert_eq!(grown_instance_capacity(16, 17), 32);
    assert_eq!(grown_instance_capacity(3, 4), 6);
    assert_eq!(grown_instance_capacity(1000, 1025), 2048);
    assert_eq!(grown_instance_capacity(1500, 1501), 3000);
}
