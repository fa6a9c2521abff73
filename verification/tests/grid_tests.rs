use rioterm::geometry::ContextDimension;
use rioterm::geometry::Delta;
use rioterm::geometry::SugarDimensions;
use rioterm::geometry::PADDING;
use rioterm::grid::Context;
use rioterm::grid::ContextGrid;
use rioterm::grid::Mouse;
use rioterm::objects::Object;
use rioterm::objects::Position;
use rioterm::objects::Rect;
use rioterm::objects::RichText;
use rioterm::objects::Rgba;
use rioterm::objects::Size;

fn create_mock_context(route_id: usize, rich_text_id: usize, dimension: ContextDimension) -> Context {
    Context::new(route_id, rich_text_id, dimension)
}

#[test]
fn test_single_context_respecting_margin_and_no_quad_creation() {
    let margin = Delta {
        x: 10,
        top_y: 20,
        bottom_y: 20,
    };

    let context_dimension = ContextDimension::build(
        1200,
        800,
        SugarDimensions {
            scale: 2,
            width: 18,
            height: 9,
        },
        1,
        Delta::<i64>::default(),
    );

    assert_eq!(context_dimension.columns, 66);
    assert_eq!(context_dimension.lines, 88);
    let rich_text_id = 1;
    let route_id = 0;
    let context = create_mock_context(route_id, rich_text_id, context_dimension);
    let context_width = context.dimension.width;
    let context_height = context.dimension.height;
    let context_margin = context.dimension.margin;
    let grid = ContextGrid::new(context, margin, Rgba::new(0, 0, 0, 0));
    // The first context should fill completely w/h grid
    assert_eq!(grid.width, context_width);
    assert_eq!(grid.height, context_height);

    // Context margin should empty
    assert_eq!(Delta::<i64>::default(), context_margin);
    assert_eq!(grid.margin, margin);

    assert_eq!(
        grid.objects(),
        vec![Object::RichText(RichText {
            id: rich_text_id,
            position: Position { x: 10, y: 20 },
        })]
    );
}

#[test]
fn test_split_right() {
    let margin = Delta {
        x: 0,
        top_y: 0,
        bottom_y: 0,
    };

    let context_dimension = ContextDimension::build(
        1200,
        800,
        SugarDimensions {
            scale: 2,
            width: 14,
            height: 8,
        },
        1,
        Delta::<i64>::default(),
    );

    assert_eq!(context_dimension.columns, 85);
    assert_eq!(context_dimension.lines, 100);

    let (first_context, first_context_id) = {
        let rich_text_id = 0;
        let route_id = 0;
        (
            create_mock_context(route_id, rich_text_id, context_dimension),
            rich_text_id,
        )
    };

    let (second_context, second_context_id) = {
        let rich_text_id = 1;
        let route_id = 0;
        (
            create_mock_context(route_id, rich_text_id, context_dimension),
            rich_text_id,
        )
    };

    let mut grid = ContextGrid::new(first_context, margin, Rgba::new(1, 0, 0, 0));

    assert_eq!(
        grid.objects(),
        vec![Object::RichText(RichText {
            id: first_context_id,
            position: Position { x: 0, y: 0 },
        })]
    );
    grid.split_right(second_context);

    assert_eq!(
        grid.objects(),
        vec![
            Object::RichText(RichText {
                id: first_context_id,
                position: Position { x: 0, y: 0 },
            }),
            Object::Rect(Rect {
                position: Position { x: 298, y: 0 },
                color: Rgba::new(1, 0, 0, 0),
                size: Size {
                    width: 1,
                    height: 800
                }
            }),
            Object::RichText(RichText {
                id: second_context_id,
                position: Position { x: 302, y: 0 }
            }),
        ]
    );

    let (third_context, third_context_id) = {
        let rich_text_id = 2;
        let route_id = 0;
        (
            create_mock_context(route_id, rich_text_id, context_dimension),
            rich_text_id,
        )
    };

    grid.split_right(third_context);

    assert_eq!(
        grid.objects(),
        vec![
            Object::RichText(RichText {
                id: first_context_id,
                position: Position { x: 0, y: 0 },
            }),
            Object::Rect(Rect {
                position: Position { x: 298, y: 0 },
                color: Rgba::new(1, 0, 0, 0),
                size: Size {
                    width: 1,
                    height: 800
                }
            }),
            Object::RichText(RichText {
                id: second_context_id,
                position: Position { x: 302, y: 0 }
            }),
            Object::Rect(Rect {
                position: Position { x: 450, y: 0 },
                color: Rgba::new(1, 0, 0, 0),
                size: Size {
                    width: 1,
                    height: 800
                }
            }),
            Object::RichText(RichText {
                id: third_context_id,
                position: Position { x: 454, y: 0 }
            }),
        ]
    );
}

#[test]
fn test_split_down() {
    let margin = Delta {
        x: 0,
        top_y: 0,
        bottom_y: 0,
    };

    let context_dimension = ContextDimension::build(
        1200,
        800,
        SugarDimensions {
            scale: 2,
            width: 14,
            height: 8,
        },
        1,
        Delta::<i64>::default(),
    );

    assert_eq!(context_dimension.columns, 85);
    assert_eq!(context_dimension.lines, 100);

    let (first_context, first_context_id) = {
        let rich_text_id = 0;
        let route_id = 0;
        (
            create_mock_context(route_id, rich_text_id, context_dimension),
            rich_text_id,
        )
    };

    let (second_context, second_context_id) = {
        let rich_text_id = 1;
        let route_id = 0;
        (
            create_mock_context(route_id, rich_text_id, context_dimension),
            rich_text_id,
        )
    };

    let mut grid = ContextGrid::new(first_context, margin, Rgba::new(0, 0, 1, 0));

    assert_eq!(
        grid.objects(),
        vec![Object::RichText(RichText {
            id: first_context_id,
            position: Position { x: 0, y: 0 },
        })]
    );
    grid.split_down(second_context);

    assert_eq!(
        grid.objects(),
        vec![
            Object::RichText(RichText {
                id: first_context_id,
                position: Position { x: 0, y: 0 },
            }),
            Object::Rect(Rect {
                position: Position { x: 0, y: 198 },
                color: Rgba::new(0, 0, 1, 0),
                size: Size {
                    width: 1200,
                    height: 1
                }
            }),
            Object::RichText(RichText {
                id: second_context_id,
                position: Position { x: 0, y: 202 }
            }),
        ]
    );

    let (third_context, third_context_id) = {
        let rich_text_id = 2;
        let route_id = 0;
        (
            create_mock_context(route_id, rich_text_id, context_dimension),
            rich_text_id,
        )
    };

    grid.split_down(third_context);

    assert_eq!(
        grid.objects(),
        vec![
            Object::RichText(RichText {
                id: first_context_id,
                position: Position { x: 0, y: 0 },
            }),
            Object::Rect(Rect {
                position: Position { x: 0, y: 198 },
                color: Rgba::new(0, 0, 1, 0),
                size: Size {
                    width: 1200,
                    height: 1
                }
            }),
            Object::RichText(RichText {
                id: second_context_id,
                position: Position { x: 0, y: 202 }
            }),
            Object::Rect(Rect {
                position: Position { x: 0, y: 300 },
                color: Rgba::new(0, 0, 1, 0),
                size: Size {
                    width: 1200,
                    height: 1
                }
            }),
            Object::RichText(RichText {
                id: third_context_id,
                position: Position { x: 0, y: 304 }
            }),
        ]
    );
}

#[test]
fn test_resize() {
    let margin = Delta {
        x: 0,
        top_y: 0,
        bottom_y: 0,
    };

    let context_dimension = ContextDimension::build(
        600,
        600,
        SugarDimensions {
            scale: 2,
            width: 14,
            height: 8,
        },
        1,
        Delta::<i64>::default(),
    );

    assert_eq!(context_dimension.columns, 42);
    assert_eq!(context_dimension.lines, 75);

    let (first_context, first_context_id) = {
        let rich_text_id = 0;
        let route_id = 0;
        (
            create_mock_context(route_id, rich_text_id, context_dimension),
            rich_text_id,
        )
    };

    let (second_context, _second_context_id) = {
        let rich_text_id = 1;
        let route_id = 0;
        (
            create_mock_context(route_id, rich_text_id, context_dimension),
            rich_text_id,
        )
    };

    let (third_context, _third_context_id) = {
        let rich_text_id = 2;
        let route_id = 0;
        (
            create_mock_context(route_id, rich_text_id, context_dimension),
            rich_text_id,
        )
    };

    let mut grid = ContextGrid::new(first_context, margin, Rgba::new(0, 0, 0, 0));

    assert_eq!(
        grid.objects(),
        vec![Object::RichText(RichText {
            id: first_context_id,
            position: Position { x: 0, y: 0 },
        })]
    );

    grid.split_right(second_context);
    grid.split_down(third_context);

    assert_eq!(grid.width, 600);
    assert_eq!(grid.height, 600);

    grid.resize(1200, 600);
}

#[test]
fn test_remove_right_without_children() {
    let margin = Delta {
        x: 0,
        top_y: 0,
        bottom_y: 0,
    };

    let context_dimension = ContextDimension::build(
        600,
        600,
        SugarDimensions {
            scale: 2,
            width: 14,
            height: 8,
        },
        1,
        Delta::<i64>::default(),
    );

    assert_eq!(context_dimension.columns, 42);
    assert_eq!(context_dimension.lines, 75);

    let (first_context, first_context_id) = {
        let rich_text_id = 0;
        let route_id = 0;
        (
            create_mock_context(route_id, rich_text_id, context_dimension),
            rich_text_id,
        )
    };

    let (second_context, _second_context_id) = {
        let rich_text_id = 1;
        let route_id = 0;
        (
            create_mock_context(route_id, rich_text_id, context_dimension),
            rich_text_id,
        )
    };

    let mut grid = ContextGrid::new(first_context, margin, Rgba::new(0, 0, 0, 0));

    assert_eq!(
        grid.objects(),
        vec![Object::RichText(RichText {
            id: first_context_id,
            position: Position { x: 0, y: 0 },
        })]
    );

    assert_eq!(grid.width, 600);
    assert_eq!(grid.height, 600);
    assert_eq!(grid.current().dimension.width, 600);

    grid.split_right(second_context);

    let new_expected_width = 600 / 2;

    assert_eq!(grid.current().dimension.width, new_expected_width);
    assert_eq!(grid.current_index(), 1);

    grid.select_prev_split();
    let old_expected_width = (600 / 2) - PADDING;
    assert_eq!(grid.current().dimension.width, old_expected_width);
    assert_eq!(grid.current_index(), 0);

    grid.select_next_split();
    assert_eq!(grid.current_index(), 1);

    grid.remove_current();

    assert_eq!(grid.current_index(), 0);
    // Whenever return to one should drop padding
    assert_eq!(grid.current().dimension.width, 600);
}

#[test]
fn test_remove_right_with_children() {
    let margin = Delta {
        x: 0,
        top_y: 0,
        bottom_y: 0,
    };

    let context_dimension = ContextDimension::build(
        600,
        600,
        SugarDimensions {
            scale: 2,
            width: 14,
            height: 8,
        },
        1,
        Delta::<i64>::default(),
    );

    assert_eq!(context_dimension.columns, 42);
    assert_eq!(context_dimension.lines, 75);

    let (first_context, first_context_id) = {
        let rich_text_id = 0;
        let route_id = 0;
        (
            create_mock_context(route_id, rich_text_id, context_dimension),
            rich_text_id,
        )
    };

    let (second_context, _second_context_id) = {
        let rich_text_id = 1;
        let route_id = 0;
        (
            create_mock_context(route_id, rich_text_id, context_dimension),
            rich_text_id,
        )
    };

    let mut grid = ContextGrid::new(first_context, margin, Rgba::new(0, 0, 0, 0));

    assert_eq!(
        grid.objects(),
        vec![Object::RichText(RichText {
            id: first_context_id,
            position: Position { x: 0, y: 0 },
        })]
    );

    grid.split_right(second_context);

    assert_eq!(grid.width, 600);
    assert_eq!(grid.height, 600);

    let new_context_expected_width = 600 / 2;

    assert_eq!(grid.current().dimension.width, new_context_expected_width);
    assert_eq!(grid.current_index(), 1);

    grid.select_prev_split();

    let old_context_expected_width = (600 / 2) - PADDING;
    assert_eq!(grid.current().dimension.width, old_context_expected_width);
    assert_eq!(grid.current_index(), 0);

    let current_index = grid.current_index();
    assert_eq!(grid.contexts()[current_index].right, Some(1));
    assert_eq!(grid.contexts()[current_index].down, None);

    grid.remove_current();

    assert_eq!(grid.current_index(), 0);
    // Whenever return to one should drop padding
    let expected_width = 600;
    assert_eq!(grid.current().dimension.width, expected_width);

    let current_index = grid.current_index();
    assert_eq!(grid.contexts()[current_index].right, None);
    assert_eq!(grid.contexts()[current_index].down, None);
}

#[test]
fn test_remove_right_with_down_children() {
    let margin = Delta {
        x: 0,
        top_y: 0,
        bottom_y: 0,
    };

    let context_dimension = ContextDimension::build(
        600,
        600,
        SugarDimensions {
            scale: 2,
            width: 14,
            height: 8,
        },
        1,
        Delta::<i64>::default(),
    );

    assert_eq!(context_dimension.columns, 42);
    assert_eq!(context_dimension.lines, 75);

    let (first_context, first_context_id) = {
        let rich_text_id = 0;
        let route_id = 0;
        (
            create_mock_context(route_id, rich_text_id, context_dimension),
            rich_text_id,
        )
    };

    let (second_context, second_context_id) = {
        let rich_text_id = 1;
        let route_id = 0;
        (
            create_mock_context(route_id, rich_text_id, context_dimension),
            rich_text_id,
        )
    };

    let mut grid = ContextGrid::new(first_context, margin, Rgba::new(0, 0, 0, 0));

    assert_eq!(
        grid.objects(),
        vec![Object::RichText(RichText {
            id: first_context_id,
            position: Position { x: 0, y: 0 },
        })]
    );

    grid.split_right(second_context);

    assert_eq!(grid.width, 600);
    assert_eq!(grid.height, 600);

    let new_context_expected_width = 600 / 2;

    assert_eq!(grid.current().dimension.width, new_context_expected_width);
    assert_eq!(grid.current_index(), 1);

    let (third_context, third_context_id) = {
        let rich_text_id = 2;
        let route_id = 0;
        (
            create_mock_context(route_id, rich_text_id, context_dimension),
            rich_text_id,
        )
    };

    grid.split_down(third_context);
    assert_eq!(grid.current_index(), 2);
    assert_eq!(grid.current().dimension.width, new_context_expected_width);
    assert_eq!(grid.current().dimension.height, 300);

    // Move back
    grid.select_prev_split();

    assert_eq!(grid.current_index(), 1);
    assert_eq!(grid.current().rich_text_id, second_context_id);
    assert_eq!(grid.current().dimension.width, new_context_expected_width);
    assert_eq!(grid.current().dimension.height, 296);

    // Remove the current should actually make right being down
    grid.remove_current();

    assert_eq!(grid.current_index(), 1);
    assert_eq!(grid.current().rich_text_id, third_context_id);
    assert_eq!(grid.current().dimension.width, new_context_expected_width);
    assert_eq!(grid.current().dimension.height, 600);
}

#[test]
fn test_remove_down_without_children() {
    let margin = Delta {
        x: 0,
        top_y: 0,
        bottom_y: 0,
    };

    let context_dimension = ContextDimension::build(
        600,
        600,
        SugarDimensions {
            scale: 2,
            width: 14,
            height: 8,
        },
        1,
        Delta::<i64>::default(),
    );

    assert_eq!(context_dimension.columns, 42);
    assert_eq!(context_dimension.lines, 75);

    let (first_context, first_context_id) = {
        let rich_text_id = 0;
        let route_id = 0;
        (
            create_mock_context(route_id, rich_text_id, context_dimension),
            rich_text_id,
        )
    };

    let (second_context, _second_context_id) = {
        let rich_text_id = 1;
        let route_id = 0;
        (
            create_mock_context(route_id, rich_text_id, context_dimension),
            rich_text_id,
        )
    };

    let mut grid = ContextGrid::new(first_context, margin, Rgba::new(0, 0, 0, 0));

    assert_eq!(
        grid.objects(),
        vec![Object::RichText(RichText {
            id: first_context_id,
            position: Position { x: 0, y: 0 },
        })]
    );

    assert_eq!(grid.width, 600);
    assert_eq!(grid.height, 600);
    assert_eq!(grid.current().dimension.width, 600);

    grid.split_down(second_context);

    let new_expected_width = 600 / 2;

    assert_eq!(grid.current().dimension.height, new_expected_width);
    assert_eq!(grid.current_index(), 1);

    grid.select_prev_split();
    let old_expected_width = (600 / 2) - PADDING;
    assert_eq!(grid.current().dimension.height, old_expected_width);
    assert_eq!(grid.current_index(), 0);

    grid.select_next_split();
    assert_eq!(grid.current_index(), 1);

    grid.remove_current();

    assert_eq!(grid.current_index(), 0);
    // Whenever return to one should drop padding
    assert_eq!(grid.current().dimension.height, 600);
}

#[test]
fn test_remove_down_with_children() {
    let margin = Delta {
        x: 0,
        top_y: 0,
        bottom_y: 0,
    };

    let context_dimension = ContextDimension::build(
        600,
        600,
        SugarDimensions {
            scale: 2,
            width: 14,
            height: 8,
        },
        1,
        Delta::<i64>::default(),
    );

    assert_eq!(context_dimension.columns, 42);
    assert_eq!(context_dimension.lines, 75);

    let (first_context, first_context_id) = {
        let rich_text_id = 0;
        let route_id = 0;
        (
            create_mock_context(route_id, rich_text_id, context_dimension),
            rich_text_id,
        )
    };

    let (second_context, _second_context_id) = {
        let rich_text_id = 1;
        let route_id = 0;
        (
            create_mock_context(route_id, rich_text_id, context_dimension),
            rich_text_id,
        )
    };

    let mut grid = ContextGrid::new(first_context, margin, Rgba::new(0, 0, 0, 0));

    assert_eq!(
        grid.objects(),
        vec![Object::RichText(RichText {
            id: first_context_id,
            position: Position { x: 0, y: 0 },
        })]
    );

    grid.split_down(second_context);

    assert_eq!(grid.width, 600);
    assert_eq!(grid.height, 600);

    let new_context_expected_height = 600 / 2;

    assert_eq!(grid.current().dimension.height, new_context_expected_height);
    assert_eq!(grid.current_index(), 1);

    grid.select_prev_split();

    let old_context_expected_height = (600 / 2) - PADDING;
    assert_eq!(grid.current().dimension.height, old_context_expected_height);
    assert_eq!(grid.current_index(), 0);

    let current_index = grid.current_index();
    assert_eq!(grid.contexts()[current_index].down, Some(1));
    assert_eq!(grid.contexts()[current_index].right, None);

    grid.remove_current();

    assert_eq!(grid.current_index(), 0);
    // Whenever return to one should drop padding
    let expected_height = 600;
    assert_eq!(grid.current().dimension.height, expected_height);

    let current_index = grid.current_index();
    assert_eq!(grid.contexts()[current_index].down, None);
    assert_eq!(grid.contexts()[current_index].right, None);
}

#[test]
fn test_remove_down_with_right_children() {
    let margin = Delta {
        x: 0,
        top_y: 0,
        bottom_y: 0,
    };

    let context_dimension = ContextDimension::build(
        600,
        600,
        SugarDimensions {
            scale: 2,
            width: 14,
            height: 8,
        },
        1,
        Delta::<i64>::default(),
    );

    assert_eq!(context_dimension.columns, 42);
    assert_eq!(context_dimension.lines, 75);

    let (first_context, first_context_id) = {
        let rich_text_id = 0;
        let route_id = 0;
        (
            create_mock_context(route_id, rich_text_id, context_dimension),
            rich_text_id,
        )
    };

    let (second_context, second_context_id) = {
        let rich_text_id = 1;
        let route_id = 0;
        (
            create_mock_context(route_id, rich_text_id, context_dimension),
            rich_text_id,
        )
    };

    let mut grid = ContextGrid::new(first_context, margin, Rgba::new(0, 0, 0, 0));

    assert_eq!(
        grid.objects(),
        vec![Object::RichText(RichText {
            id: first_context_id,
            position: Position { x: 0, y: 0 },
        })]
    );

    grid.split_down(second_context);

    assert_eq!(grid.width, 600);
    assert_eq!(grid.height, 600);

    let new_context_expected_height = 600 / 2;

    assert_eq!(grid.current().dimension.height, new_context_expected_height);
    assert_eq!(grid.current_index(), 1);

    let (third_context, third_context_id) = {
        let rich_text_id = 2;
        let route_id = 0;
        (
            create_mock_context(route_id, rich_text_id, context_dimension),
            rich_text_id,
        )
    };

    grid.split_right(third_context);
    assert_eq!(grid.current_index(), 2);
    assert_eq!(grid.current().dimension.width, new_context_expected_height);
    assert_eq!(grid.current().dimension.height, 300);

    // Move back
    grid.select_prev_split();

    assert_eq!(grid.current_index(), 1);
    assert_eq!(grid.current().rich_text_id, second_context_id);
    assert_eq!(grid.current().dimension.height, new_context_expected_height);
    assert_eq!(grid.current().dimension.width, 296);

    // Remove the current should actually make down being down
    grid.remove_current();

    assert_eq!(grid.current_index(), 1);
    assert_eq!(grid.current().rich_text_id, third_context_id);
    assert_eq!(grid.current().dimension.height, new_context_expected_height);
    assert_eq!(grid.current().dimension.width, 600);
}

#[test]
fn test_select_current_based_on_mouse() {
    let mut mouse = Mouse::default();
    let margin = Delta {
        x: 0,
        top_y: 0,
        bottom_y: 0,
    };

    let context_dimension = ContextDimension::build(
        600,
        600,
        SugarDimensions {
            scale: 2,
            width: 14,
            height: 8,
        },
        1,
        Delta::<i64>::default(),
    );

    assert_eq!(context_dimension.columns, 42);
    assert_eq!(context_dimension.lines, 75);

    let (first_context, first_context_id) = {
        let rich_text_id = 0;
        let route_id = 0;
        (
            create_mock_context(route_id, rich_text_id, context_dimension),
            rich_text_id,
        )
    };

    let (second_context, second_context_id) = {
        let rich_text_id = 1;
        let route_id = 0;
        (
            create_mock_context(route_id, rich_text_id, context_dimension),
            rich_text_id,
        )
    };

    let mut grid = ContextGrid::new(first_context, margin, Rgba::new(0, 0, 0, 0));

    assert_eq!(
        grid.objects(),
        vec![Object::RichText(RichText {
            id: first_context_id,
            position: Position { x: 0, y: 0 },
        })]
    );

    grid.select_current_based_on_mouse(&mouse);
    // On first should always return first item
    assert_eq!(grid.current_index(), 0);

    grid.split_down(second_context);

    assert_eq!(grid.width, 600);
    assert_eq!(grid.height, 600);

    let new_context_expected_height = 600 / 2;

    assert_eq!(grid.current().dimension.height, new_context_expected_height);
    assert_eq!(grid.current_index(), 1);

    let (third_context, third_context_id) = {
        let rich_text_id = 2;
        let route_id = 0;
        (
            create_mock_context(route_id, rich_text_id, context_dimension),
            rich_text_id,
        )
    };

    grid.split_right(third_context);
    assert_eq!(grid.current_index(), 2);
    assert_eq!(grid.current().dimension.width, new_context_expected_height);
    assert_eq!(grid.current().dimension.height, 300);

    grid.select_current_based_on_mouse(&mouse);
    assert_eq!(grid.current_index(), 0);
    assert_eq!(grid.current().rich_text_id, 0);

    mouse.y = (new_context_expected_height + PADDING) as usize;
    grid.select_current_based_on_mouse(&mouse);

    assert_eq!(grid.current_index(), 1);
    assert_eq!(grid.current().rich_text_id, second_context_id);

    mouse.x = 304;
    grid.select_current_based_on_mouse(&mouse);

    assert_eq!(grid.current_index(), 2);
    assert_eq!(grid.current().rich_text_id, third_context_id);
}

#[test]
fn test_select_mouse_pane_edges_are_exclusive() {
    let context_dimension = ContextDimension::build(
        600,
        600,
        SugarDimensions {
            scale: 2,
            width: 14,
            height: 8,
        },
        1,
        Delta::<i64>::default(),
    );
    let first = create_mock_context(0, 0, context_dimension);
    let second = create_mock_context(0, 1, context_dimension);
    let mut grid = ContextGrid::new(first, Delta::<i64>::default(), Rgba::new(0, 0, 0, 0));
    grid.split_down(second);

    // The first pane spans y in [0, 296) and x in [0, 600).
    let mut mouse = Mouse::default();
    mouse.y = 295;
    assert!(grid.select_current_based_on_mouse(&mouse));
    assert_eq!(grid.current_index(), 0);

    // A pointer exactly on the pane's bottom edge is outside every pane
    // (the separator band follows), so the selection stays.
    mouse.y = 296;
    assert!(!grid.select_current_based_on_mouse(&mouse));
    assert_eq!(grid.current_index(), 0);

    // The same holds for the right edge.
    mouse.y = 0;
    mouse.x = 600;
    assert!(!grid.select_current_based_on_mouse(&mouse));
    assert_eq!(grid.current_index(), 0);
    mouse.x = 599;
    assert!(grid.select_current_based_on_mouse(&mouse));
    assert_eq!(grid.current_index(), 0);
}

#[test]
fn test_split_then_remove_restores_dimension() {
    let margin = Delta {
        x: 0,
        top_y: 0,
        bottom_y: 0,
    };
    let context_dimension = ContextDimension::build(
        600,
        600,
        SugarDimensions {
            scale: 2,
            width: 14,
            height: 8,
        },
        1,
        Delta::<i64>::default(),
    );
    let first = create_mock_context(0, 0, context_dimension);
    let second = create_mock_context(0, 1, context_dimension);
    let third = create_mock_context(0, 2, context_dimension);

    let mut grid = ContextGrid::new(first, margin, Rgba::new(0, 0, 0, 0));
    let before_width = grid.current().dimension.width;
    let before_height = grid.current().dimension.height;

    grid.split_right(second);
    grid.remove_current();
    assert_eq!(grid.len(), 1);
    assert_eq!(grid.current().dimension.width, before_width);
    assert_eq!(grid.current().dimension.height, before_height);

    grid.split_down(third);
    grid.remove_current();
    assert_eq!(grid.len(), 1);
    assert_eq!(grid.current().dimension.width, before_width);
    assert_eq!(grid.current().dimension.height, before_height);
}

#[test]
fn test_update_margin_recomputes_grids() {
    let context_dimension = ContextDimension::build(
        1200,
        800,
        SugarDimensions {
            scale: 2,
            width: 18,
            height: 9,
        },
        1,
        Delta::<i64>::default(),
    );
    assert_eq!(context_dimension.columns, 66);
    let context = create_mock_context(0, 0, context_dimension);
    let mut grid = ContextGrid::new(context, Delta::<i64>::default(), Rgba::new(0, 0, 0, 0));

    grid.update_margin((10, 20, 20));
    assert_eq!(grid.margin.x, 10);
    assert_eq!(grid.margin.top_y, 20);
    assert_eq!(grid.margin.bottom_y, 20);
    // (1200 / 2 - 10 * 2) / (18 / 2) = 580 / 9 = 64
    assert_eq!(grid.current().dimension.columns, 64);
    // (800 / 2 - (20 + 20)) / (9 / 2) = (400 - 40) * 2 / 9 = 80
    assert_eq!(grid.current().dimension.lines, 80);
}

#[test]
fn test_update_dimensions_recomputes_grids() {
    let context_dimension = ContextDimension::build(
        1200,
        800,
        SugarDimensions {
            scale: 2,
            width: 18,
            height: 9,
        },
        1,
        Delta::<i64>::default(),
    );
    let context = create_mock_context(0, 0, context_dimension);
    let mut grid = ContextGrid::new(context, Delta::<i64>::default(), Rgba::new(0, 0, 0, 0));

    let layouts = vec![SugarDimensions {
        scale: 2,
        width: 14,
        height: 8,
    }];
    grid.update_dimensions(&layouts);
    assert_eq!(grid.current().dimension.columns, 85);
    assert_eq!(grid.current().dimension.lines, 100);
}

#[test]
fn test_grid_dimension_uses_outer_box() {
    let context_dimension = ContextDimension::build(
        600,
        600,
        SugarDimensions {
            scale: 2,
            width: 14,
            height: 8,
        },
        1,
        Delta::<i64>::default(),
    );
    let first = create_mock_context(0, 0, context_dimension);
    let second = create_mock_context(0, 1, context_dimension);
    let mut grid = ContextGrid::new(first, Delta::<i64>::default(), Rgba::new(0, 0, 0, 0));
    grid.split_right(second);

    // After the split panes are narrower, but the grid box is unchanged.
    let whole = grid.grid_dimension();
    assert_eq!(whole.width, 600);
    assert_eq!(whole.height, 600);
    assert_eq!(whole.columns, 42);
    assert_eq!(whole.lines, 75);
}

#[test]
fn test_find_by_rich_text_id() {
    let context_dimension = ContextDimension::build(
        600,
        600,
        SugarDimensions {
            scale: 2,
            width: 14,
            height: 8,
        },
        1,
        Delta::<i64>::default(),
    );
    let first = create_mock_context(0, 7, context_dimension);
    let second = create_mock_context(0, 9, context_dimension);
    let mut grid = ContextGrid::new(first, Delta::<i64>::default(), Rgba::new(0, 0, 0, 0));
    grid.split_right(second);

    assert_eq!(grid.find_by_rich_text_id(7), Some(0));
    assert_eq!(grid.find_by_rich_text_id(9), Some(1));
    assert_eq!(grid.find_by_rich_text_id(11), None);
}

#[test]
fn test_current_context_with_computed_dimension() {
    let context_dimension = ContextDimension::build(
        600,
        600,
        SugarDimensions {
            scale: 2,
            width: 14,
            height: 8,
        },
        1,
        Delta::<i64>::default(),
    );
    let first = create_mock_context(0, 0, context_dimension);
    let second = create_mock_context(0, 1, context_dimension);
    let mut grid = ContextGrid::new(first, Delta::<i64>::default(), Rgba::new(0, 0, 0, 0));

    // With a single pane the outer margin comes back unchanged.
    let (context, margin) = grid.current_context_with_computed_dimension();
    assert_eq!(context.rich_text_id, 0);
    assert_eq!(margin, Delta::<i64>::default());

    grid.split_right(second);
    // The first pane is now 296 px wide (148 unscaled), so the second
    // pane's region starts at x = 152; the effective margin adds the fixed
    // inset on both axes.
    let (context, margin) = grid.current_context_with_computed_dimension();
    assert_eq!(context.rich_text_id, 1);
    assert_eq!(margin.x, 152 + PADDING);
    assert_eq!(margin.top_y, PADDING);
    assert_eq!(margin.bottom_y, 0);
}

#[test]
fn test_remove_root_then_detached_leaf() {
    let context_dimension = ContextDimension::build(
        600,
        600,
        SugarDimensions {
            scale: 2,
            width: 14,
            height: 8,
        },
        1,
        Delta::<i64>::default(),
    );
    let first = create_mock_context(0, 0, context_dimension);
    let second = create_mock_context(0, 1, context_dimension);
    let third = create_mock_context(0, 2, context_dimension);
    let mut grid = ContextGrid::new(first, Delta::<i64>::default(), Rgba::new(0, 0, 0, 0));

    // Hang one pane to the right of the root and one below it.
    grid.split_right(second);
    grid.select_prev_split();
    grid.split_down(third);
    grid.select_prev_split();
    grid.select_prev_split();
    assert_eq!(grid.current_index(), 0);
    assert_eq!(grid.current().rich_text_id, 0);
    assert_eq!(grid.current().dimension.width, 296);
    assert_eq!(grid.current().dimension.height, 296);

    // Removing the root hands its width to the right child; the down child
    // keeps its box but loses its incoming link.
    grid.remove_current();
    assert_eq!(grid.len(), 2);
    assert_eq!(grid.current_index(), 0);
    assert_eq!(grid.current().rich_text_id, 1);
    assert_eq!(grid.current().dimension.width, 600);
    assert_eq!(grid.current().dimension.height, 600);
    assert_eq!(grid.contexts()[0].right, None);
    assert_eq!(grid.contexts()[0].down, None);

    // The selected pane now has no parent and no children: removing it
    // moves the selection back in cyclic order and resizes nothing.
    grid.remove_current();
    assert_eq!(grid.len(), 1);
    assert_eq!(grid.current_index(), 0);
    assert_eq!(grid.current().rich_text_id, 2);
    assert_eq!(grid.current().dimension.width, 296);
    assert_eq!(grid.current().dimension.height, 300);
}

#[test]
fn test_resize_distributes_evenly() {
    let context_dimension = ContextDimension::build(
        600,
        600,
        SugarDimensions {
            scale: 2,
            width: 14,
            height: 8,
        },
        1,
        Delta::<i64>::default(),
    );
    let first = create_mock_context(0, 0, context_dimension);
    let second = create_mock_context(0, 1, context_dimension);
    let third = create_mock_context(0, 2, context_dimension);
    let mut grid = ContextGrid::new(first, Delta::<i64>::default(), Rgba::new(0, 0, 0, 0));

    grid.split_right(second);
    grid.split_down(third);
    assert_eq!(grid.contexts()[0].val.dimension.width, 296);
    assert_eq!(grid.contexts()[0].val.dimension.height, 600);
    assert_eq!(grid.contexts()[1].val.dimension.width, 300);
    assert_eq!(grid.contexts()[1].val.dimension.height, 296);
    assert_eq!(grid.contexts()[2].val.dimension.width, 300);
    assert_eq!(grid.contexts()[2].val.dimension.height, 300);

    // Growing the box by 600 px hands half the change to the right
    // subtree, which reports it back as its own share.
    grid.resize(1200, 600);
    assert_eq!(grid.width, 1200);
    assert_eq!(grid.height, 600);
    assert_eq!(grid.contexts()[0].val.dimension.width, 596);
    assert_eq!(grid.contexts()[0].val.dimension.height, 600);
    assert_eq!(grid.contexts()[1].val.dimension.width, 600);
    assert_eq!(grid.contexts()[1].val.dimension.height, 296);
    assert_eq!(grid.contexts()[2].val.dimension.width, 600);
    assert_eq!(grid.contexts()[2].val.dimension.height, 300);
}

#[test]
fn test_degenerate_box_never_yields_empty_grid() {
    let dim = ContextDimension::build(
        0,
        0,
        SugarDimensions {
            scale: 2,
            width: 14,
            height: 8,
        },
        1,
        Delta::<i64>::default(),
    );
    assert_eq!(dim.columns, 2);
    assert_eq!(dim.lines, 1);

    let negative = ContextDimension::build(
        -500,
        -500,
        SugarDimensions {
            scale: 1,
            width: 1,
            height: 1,
        },
        1,
        Delta::<i64>::default(),
    );
    assert_eq!(negative.columns, 2);
    assert_eq!(negative.lines, 1);
}
