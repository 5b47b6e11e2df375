use packing::sim::{record_contact, HandleIndex, Sim, SquareImpulseBuilder, SquareIndex};
use packing::square::ElementIndex;

#[test]
fn square_index_of_each_handle() {
    let i = SquareIndex::Small(3);
    assert_eq!(HandleIndex::Dragging(i).square_index(), i);
    assert_eq!(HandleIndex::Resizing(i).square_index(), i);
    assert_eq!(HandleIndex::Rotating(SquareIndex::Big).square_index(), SquareIndex::Big);
}

fn sample() -> Sim<u32> {
    Sim {
        big_square: 100,
        small_squares: vec![10, 11, 12],
    }
}

#[test]
fn get_reads_big_and_small() {
    let sim = sample();
    assert_eq!(*sim.get(SquareIndex::Big), 100);
    assert_eq!(*sim.get(SquareIndex::Small(0)), 10);
    assert_eq!(*sim.get(SquareIndex::Small(2)), 12);
}

#[test]
fn get_mut_write_then_read() {
    let mut sim = sample();
    *sim.get_mut(SquareIndex::Small(1)) = 42;
    assert_eq!(*sim.get(SquareIndex::Small(1)), 42);
    assert_eq!(*sim.get(SquareIndex::Small(0)), 10);
    assert_eq!(*sim.get(SquareIndex::Small(2)), 12);
    assert_eq!(*sim.get(SquareIndex::Big), 100);
    *sim.get_mut(SquareIndex::Big) = 7;
    assert_eq!(*sim.get(SquareIndex::Big), 7);
    assert_eq!(sim.small_squares, vec![10, 42, 12]);
}

#[test]
fn enumerate_squares_big_first() {
    let sim = sample();
    let all: Vec<(SquareIndex, u32)> = sim.enumerate_squares().into_iter().map(|(i, s)| (i, *s)).collect();
    assert_eq!(
        all,
        vec![
            (SquareIndex::Big, 100),
            (SquareIndex::Small(0), 10),
            (SquareIndex::Small(1), 11),
            (SquareIndex::Small(2), 12),
        ]
    );
    let empty: Sim<u32> = Sim { big_square: 1, small_squares: vec![] };
    assert_eq!(empty.enumerate_squares().len(), 1);
}

#[test]
fn enumerate_handle_indices_three_per_square() {
    let sim = Sim { big_square: 0u8, small_squares: vec![1u8] };
    let handles = sim.enumerate_handle_indices();
    assert_eq!(
        handles,
        vec![
            HandleIndex::Dragging(SquareIndex::Big),
            HandleIndex::Resizing(SquareIndex::Big),
            HandleIndex::Rotating(SquareIndex::Big),
            HandleIndex::Dragging(SquareIndex::Small(0)),
            HandleIndex::Resizing(SquareIndex::Small(0)),
            HandleIndex::Rotating(SquareIndex::Small(0)),
        ]
    );
    for (k, h) in handles.iter().enumerate() {
        let expected = if k / 3 == 0 { SquareIndex::Big } else { SquareIndex::Small(k / 3 - 1) };
        assert_eq!(h.square_index(), expected);
    }
}

fn vertex_builder(b: &SquareImpulseBuilder<i32>) -> (usize, i32) {
    match *b {
        SquareImpulseBuilder::Vertex { vertex_index, impulse } => (vertex_index, impulse),
        SquareImpulseBuilder::Edge { .. } => panic!("edge builder"),
    }
}

#[test]
fn record_contact_vertex_vertex_between_small_squares() {
    let mut builders: Vec<Vec<SquareImpulseBuilder<i32>>> = vec![vec![], vec![], vec![]];
    record_contact(&mut builders, SquareIndex::Small(0), 2, SquareIndex::Small(2), ElementIndex::Vertex(1), -5, 5);
    assert_eq!(builders[0].len(), 1);
    assert_eq!(vertex_builder(&builders[0][0]), (2, -5));
    assert!(builders[1].is_empty());
    assert_eq!(builders[2].len(), 1);
    assert_eq!(vertex_builder(&builders[2][0]), (1, 5));
}

#[test]
fn record_contact_edge_element_gets_nothing() {
    let mut builders: Vec<Vec<SquareImpulseBuilder<i32>>> = vec![vec![], vec![]];
    record_contact(&mut builders, SquareIndex::Small(1), 3, SquareIndex::Small(0), ElementIndex::Edge(2), -1, 1);
    assert!(builders[0].is_empty());
    assert_eq!(builders[1].len(), 1);
    assert_eq!(vertex_builder(&builders[1][0]), (3, -1));
}

#[test]
fn record_contact_big_square_gets_nothing() {
    let mut builders: Vec<Vec<SquareImpulseBuilder<i32>>> = vec![vec![]];
    record_contact(&mut builders, SquareIndex::Big, 0, SquareIndex::Small(0), ElementIndex::Vertex(3), -2, 2);
    assert_eq!(builders[0].len(), 1);
    assert_eq!(vertex_builder(&builders[0][0]), (3, 2));
    record_contact(&mut builders, SquareIndex::Small(0), 1, SquareIndex::Big, ElementIndex::Vertex(0), -4, 4);
    assert_eq!(builders[0].len(), 2);
    assert_eq!(vertex_builder(&builders[0][1]), (1, -4));
}

#[test]
fn record_contact_within_one_square_keeps_order() {
    let mut builders: Vec<Vec<SquareImpulseBuilder<i32>>> = vec![vec![]];
    record_contact(&mut builders, SquareIndex::Small(0), 0, SquareIndex::Small(0), ElementIndex::Vertex(2), -3, 3);
    assert_eq!(builders[0].len(), 2);
    assert_eq!(vertex_builder(&builders[0][0]), (0, -3));
    assert_eq!(vertex_builder(&builders[0][1]), (2, 3));
}

#[test]
fn apply_impulse_builders_moves_small_squares_only() {
    let mut sim = sample();
    let lists: Vec<Vec<u32>> = vec![vec![1, 2], vec![], vec![5]];
    sim.apply_impulse_builders(&lists, |square: &u32, list: &Vec<u32>| *square + list.iter().sum::<u32>());
    assert_eq!(sim.big_square, 100);
    assert_eq!(sim.small_squares, vec![13, 11, 17]);
}

#[test]
fn contact_element_set_visits_squares_then_elements() {
    let sim = Sim { big_square: 0u32, small_squares: vec![1u32, 2u32] };
    // accept the vertices of odd squares and edge 2 of every square.
    let set = sim.contact_element_set(|square: &u32, element: ElementIndex| match element {
        ElementIndex::Vertex(_) => *square % 2 == 1,
        ElementIndex::Edge(i) => i == 2,
    });
    assert_eq!(
        set,
        vec![
            (SquareIndex::Big, ElementIndex::Edge(2)),
            (SquareIndex::Small(0), ElementIndex::Vertex(0)),
            (SquareIndex::Small(0), ElementIndex::Vertex(1)),
            (SquareIndex::Small(0), ElementIndex::Vertex(2)),
            (SquareIndex::Small(0), ElementIndex::Vertex(3)),
            (SquareIndex::Small(0), ElementIndex::Edge(2)),
            (SquareIndex::Small(1), ElementIndex::Edge(2)),
        ]
    );
    assert!(sim.contact_element_set(|_: &u32, _: ElementIndex| false).is_empty());
    assert_eq!(sim.contact_element_set(|_: &u32, _: ElementIndex| true).len(), 24);
}
