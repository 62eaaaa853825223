use tileboard::component::{
    Board, ErrorKind, Piece, Placement, PlacementImpl, Tile, TileAttribute, TileSet,
};
use tileboard::lang::Letter;
use tileboard::space::{Dimension, Distance, Location, Orientations};

fn new_piece(letter: Option<char>, value: i32, wild: bool) -> Piece {
    Piece::new(letter.map(Letter::new), value, wild)
}

fn empty_board() -> Board {
    Board::new(
        Dimension::of((7u32, 7u32, 7u32)),
        Location::at((3, 3, 3)),
        Orientations::xyz(),
    )
}

// Piece =====

#[test]
fn piece_eq() {
    let cases: Vec<(Piece, Piece, bool)> = vec![
        (new_piece(None, 0, true), new_piece(None, 0, true), true),
        (new_piece(None, 0, true), new_piece(None, 1, true), true),
        (new_piece(None, 0, true), new_piece(Some('a'), 0, true), true),
        (new_piece(None, 0, true), new_piece(Some('a'), 1, false), false),
        (new_piece(Some('a'), 1, false), new_piece(Some('a'), 1, false), true),
        (new_piece(Some('a'), 1, false), new_piece(Some('a'), 2, false), true),
        (new_piece(Some('a'), 1, false), new_piece(None, 1, false), false),
        (new_piece(Some('a'), 1, false), new_piece(Some('b'), 1, false), false),
    ];
    for (lhs, rhs, expected) in cases {
        assert_eq!(lhs.eq(&rhs), expected);
    }
}

#[test]
fn piece_accessors() {
    let mut piece = new_piece(Some('q'), 10, false);
    assert_eq!(piece.letter(), Some(Letter::new('q')));
    assert_eq!(piece.value(), 10);
    assert!(!piece.wild());
    piece.set_letter(Some(Letter::new('r')));
    assert_eq!(piece.letter(), Some(Letter::new('r')));
    assert_eq!(piece.letter().map(|l| l.character()), Some('r'));
}

// PlacementImpl =====

#[test]
fn placement_impl_new() {
    // given
    let start_location = Location::at((0, 0, 0));
    let orientation = Orientations::x();
    let pieces: Vec<Piece> = vec![new_piece(Some('a'), 1, false)];

    // when
    let result = PlacementImpl::new(start_location, orientation, pieces.clone());

    // then
    assert_eq!(result.start_location(), &start_location);
    assert_eq!(result.orientation(), &orientation);
    assert_eq!(result.pieces(), &pieces);
}

#[test]
fn placement_impl_eq() {
    let cases: Vec<(PlacementImpl, PlacementImpl, bool)> = vec![
        (
            PlacementImpl::new(Location::at((1, 1, 1)), Orientations::x(), vec![]),
            PlacementImpl::new(Location::at((1, 1, 1)), Orientations::x(), vec![]),
            true,
        ),
        (
            PlacementImpl::new(Location::at((1, 1, 1)), Orientations::x(), vec![]),
            PlacementImpl::new(Location::at((2, 2, 2)), Orientations::x(), vec![]),
            false,
        ),
        (
            PlacementImpl::new(Location::at((1, 1, 1)), Orientations::x(), vec![]),
            PlacementImpl::new(Location::at((1, 1, 1)), Orientations::y(), vec![]),
            false,
        ),
        (
            PlacementImpl::new(Location::at((1, 1, 1)), Orientations::x(), vec![]),
            PlacementImpl::new(
                Location::at((1, 1, 1)),
                Orientations::x(),
                vec![new_piece(Some('a'), 1, false)],
            ),
            false,
        ),
    ];
    for (lhs, rhs, expected) in cases {
        assert_eq!(lhs.eq(&rhs), expected);
    }
}

#[test]
fn placement_impl_eq_wildcard_pieces() {
    // Wildcard pieces compare equal whatever letters they resolved to, so
    // the placements carrying them do too.
    let lhs = PlacementImpl::new(
        Location::at((1, 1, 1)),
        Orientations::x(),
        vec![new_piece(Some('a'), 1, true)],
    );
    let rhs = PlacementImpl::new(
        Location::at((1, 1, 1)),
        Orientations::x(),
        vec![new_piece(Some('b'), 2, true)],
    );
    assert_eq!(lhs, rhs);
}

// TileAttribute =====

#[test]
fn attribute_letter_bonus_applies_only_at_zero_distance() {
    let attribute = TileAttribute::LetterBonus { multiplier: 3, visible: true };
    assert_eq!(attribute.modify_value(4, &Distance::of((0, 0, 0)), true), 12);
    assert_eq!(attribute.modify_value(4, &Distance::of((1, 0, 0)), true), 4);
    assert!(attribute.visible());
}

#[test]
fn attribute_word_bonus_applies_only_in_same_word() {
    let attribute = TileAttribute::WordBonus { multiplier: 2, visible: false };
    assert_eq!(attribute.modify_value(5, &Distance::of((1, 1, 0)), true), 10);
    assert_eq!(attribute.modify_value(5, &Distance::of((0, 0, 0)), false), 5);
    assert!(!attribute.visible());
}

#[test]
fn attribute_multiplication_saturates() {
    let attribute = TileAttribute::WordBonus { multiplier: i32::MAX, visible: true };
    assert_eq!(
        attribute.modify_value(i32::MAX, &Distance::of((0, 0, 0)), true),
        i32::MAX
    );
    assert_eq!(
        attribute.modify_value(i32::MIN, &Distance::of((0, 0, 0)), true),
        i32::MIN
    );
}

#[test]
fn attribute_equality_is_by_variant_and_parameters() {
    let a = TileAttribute::LetterBonus { multiplier: 2, visible: true };
    let b = TileAttribute::LetterBonus { multiplier: 2, visible: true };
    let c = TileAttribute::LetterBonus { multiplier: 3, visible: true };
    let d = TileAttribute::WordBonus { multiplier: 2, visible: true };
    assert_eq!(a, b);
    assert_ne!(a, c);
    assert_ne!(a, d);
}

// Tile =====

#[test]
fn tile_base_value() {
    let mut tile = Tile::new(Location::at((0, 0, 0)));
    assert_eq!(tile.location(), Location::at((0, 0, 0)));
    assert_eq!(tile.base_value(), 0);
    assert!(tile.piece().is_none());
    tile.set_piece(new_piece(Some('a'), 7, false));
    assert_eq!(tile.base_value(), 7);
    assert!(tile.piece().is_some());
}

#[test]
fn tile_add_and_remove_attribute() {
    let mut tile = Tile::new(Location::at((0, 0, 0)));
    let bonus = TileAttribute::LetterBonus { multiplier: 2, visible: true };
    let word = TileAttribute::WordBonus { multiplier: 3, visible: true };
    tile.add_attribute(bonus);
    tile.add_attribute(word);
    tile.add_attribute(bonus);
    assert_eq!(tile.attributes().len(), 3);
    tile.remove_attribute(&bonus);
    assert_eq!(tile.attributes().len(), 2);
    assert_eq!(tile.attributes()[0], word);
    assert_eq!(tile.attributes()[1], bonus);
    tile.remove_attribute(&TileAttribute::WordBonus { multiplier: 9, visible: true });
    assert_eq!(tile.attributes().len(), 2);
}

// TileSet =====

#[test]
fn tile_set_get_or_create() {
    let mut tiles = TileSet::new();
    let location = Location::at((1, 2, 3));
    let created = tiles.tile(&location);
    assert_eq!(created.location(), location);
    assert!(created.piece().is_none());
    let again = tiles.tile(&location);
    assert_eq!(again.location(), location);
    assert_eq!(tiles.tiles.len(), 1);
}

#[test]
fn tile_set_set_piece_and_lookups() {
    let mut tiles = TileSet::new();
    let location = Location::at((1, 1, 0));
    assert!(tiles.piece_at(&location).is_none());
    assert!(tiles.occupied_tiles().is_empty());
    tiles.set_piece(&location, new_piece(Some('a'), 4, false));
    let found = tiles.piece_at(&location).expect("the piece was just set");
    assert_eq!(found.value(), 4);
    let occupied = tiles.occupied_tiles();
    assert_eq!(occupied.len(), 1);
    assert_eq!(occupied[0].location(), location);
    tiles.clear();
    assert!(tiles.piece_at(&location).is_none());
    assert!(tiles.occupied_tiles().is_empty());
}

#[test]
fn tile_set_attributes_lookup() {
    let mut tiles = TileSet::new();
    let location = Location::at((2, 0, 0));
    assert!(tiles.attributes_at(&location).is_empty());
    let mut tile = Tile::new(location);
    tile.add_attribute(TileAttribute::WordBonus { multiplier: 3, visible: true });
    tiles.tiles.push(tile);
    let attributes = tiles.attributes_at(&location);
    assert_eq!(attributes.len(), 1);
    assert_eq!(attributes[0], TileAttribute::WordBonus { multiplier: 3, visible: true });
    let batched = tiles.attributes(&vec![location, Location::at((9, 9, 9))]);
    assert_eq!(batched.len(), 2);
    assert_eq!(batched[0].0, location);
    assert_eq!(batched[0].1.len(), 1);
    assert_eq!(batched[1].0, Location::at((9, 9, 9)));
    assert!(batched[1].1.is_empty());
}

// Board =====

#[test]
fn board_accessors() {
    let board = empty_board();
    assert_eq!(board.dimension(), Dimension::of((7u32, 7u32, 7u32)));
    assert_eq!(board.start(), Location::at((3, 3, 3)));
    assert_eq!(board.orientations().len(), 3);
    assert!(board.tiles().occupied_tiles().is_empty());
}

#[test]
fn board_place_single_piece_at_start() {
    // Placing one piece on the start of an empty, attribute-free board
    // succeeds and scores exactly that piece's value.
    let mut board = empty_board();
    let placement = PlacementImpl::new(
        board.start(),
        Orientations::x(),
        vec![new_piece(Some('a'), 4, false)],
    );
    assert!(board.valid(&placement));
    assert_eq!(board.calculate_points(&placement), 4);
    match board.place(&placement) {
        Ok(points) => assert_eq!(points, 4),
        Err(_) => panic!("placing on the start of an empty board must succeed"),
    }
    let occupant = board
        .tiles()
        .piece_at(&Location::at((3, 3, 3)))
        .expect("the start tile is now occupied");
    assert_eq!(occupant.value(), 4);
}

#[test]
fn board_place_word_scores_sum() {
    let mut board = empty_board();
    let placement = PlacementImpl::new(
        board.start(),
        Orientations::y(),
        vec![
            new_piece(Some('c'), 3, false),
            new_piece(Some('a'), 1, false),
            new_piece(Some('t'), 1, false),
        ],
    );
    match board.place(&placement) {
        Ok(points) => assert_eq!(points, 5),
        Err(_) => panic!("a word through the start of an empty board must succeed"),
    }
}

#[test]
fn board_place_out_of_bounds_fails() {
    // A run that exits the dimension fails with InvalidPlacement.
    let mut board = Board::new(
        Dimension::of((3u32, 3u32)),
        Location::at((1, 1, 0)),
        Orientations::xy(),
    );
    let placement = PlacementImpl::new(
        Location::at((2, 1, 0)),
        Orientations::x(),
        vec![new_piece(Some('a'), 1, false), new_piece(Some('b'), 1, false)],
    );
    assert!(!board.valid(&placement));
    match board.place(&placement) {
        Ok(_) => panic!("a run exiting the dimension must be rejected"),
        Err(error) => assert!(matches!(error.kind, ErrorKind::InvalidPlacement)),
    }
    assert!(board.tiles().occupied_tiles().is_empty());
}

#[test]
fn board_first_placement_must_cover_start() {
    let mut board = empty_board();
    let placement = PlacementImpl::new(
        Location::at((0, 0, 0)),
        Orientations::x(),
        vec![new_piece(Some('a'), 1, false)],
    );
    assert!(!board.valid(&placement));
    match board.place(&placement) {
        Ok(_) => panic!("the opening move must cover the start location"),
        Err(error) => assert!(matches!(error.kind, ErrorKind::InvalidPlacement)),
    }
}

#[test]
fn board_disconnected_placement_fails() {
    // On a non-empty board, a placement touching no occupied tile fails
    // with InvalidPlacement; one overlapping a matching letter succeeds.
    let mut board = empty_board();
    let opening = PlacementImpl::new(
        board.start(),
        Orientations::x(),
        vec![new_piece(Some('a'), 1, false), new_piece(Some('b'), 2, false)],
    );
    assert!(board.place(&opening).is_ok());

    let disconnected = PlacementImpl::new(
        Location::at((0, 0, 0)),
        Orientations::y(),
        vec![new_piece(Some('z'), 10, false)],
    );
    assert!(!board.valid(&disconnected));
    match board.place(&disconnected) {
        Ok(_) => panic!("a disconnected placement must be rejected"),
        Err(error) => assert!(matches!(error.kind, ErrorKind::InvalidPlacement)),
    }

    let crossing = PlacementImpl::new(
        board.start(),
        Orientations::y(),
        vec![new_piece(Some('a'), 1, false), new_piece(Some('n'), 1, false)],
    );
    assert!(board.valid(&crossing));
    match board.place(&crossing) {
        Ok(points) => assert_eq!(points, 2),
        Err(_) => panic!("overlapping an equal letter must succeed"),
    }
}

#[test]
fn board_overwrite_with_different_letter_fails() {
    let mut board = empty_board();
    let opening = PlacementImpl::new(
        board.start(),
        Orientations::x(),
        vec![new_piece(Some('a'), 1, false)],
    );
    assert!(board.place(&opening).is_ok());
    let conflicting = PlacementImpl::new(
        board.start(),
        Orientations::y(),
        vec![new_piece(Some('b'), 1, false)],
    );
    assert!(!board.valid(&conflicting));
    match board.place(&conflicting) {
        Ok(_) => panic!("overwriting a different letter must be rejected"),
        Err(error) => assert!(matches!(error.kind, ErrorKind::InvalidPlacement)),
    }
}

#[test]
fn board_wrong_orientation_fails() {
    let mut board = Board::new(
        Dimension::of((7u32, 7u32, 7u32)),
        Location::at((3, 3, 3)),
        Orientations::xy(),
    );
    let placement = PlacementImpl::new(
        board.start(),
        Orientations::z(),
        vec![new_piece(Some('a'), 1, false)],
    );
    assert!(!board.valid(&placement));
    match board.place(&placement) {
        Ok(_) => panic!("a disallowed orientation must be rejected"),
        Err(error) => assert!(matches!(error.kind, ErrorKind::InvalidPlacement)),
    }
}

#[test]
fn board_scoring_applies_attributes_in_order() {
    // The start tile doubles its own letter and triples the word's
    // values; applied in attachment order the piece's 5 becomes 30.
    let mut board = empty_board();
    let mut bonus_tile = Tile::new(board.start());
    bonus_tile.add_attribute(TileAttribute::LetterBonus { multiplier: 2, visible: true });
    bonus_tile.add_attribute(TileAttribute::WordBonus { multiplier: 3, visible: true });
    board.tiles.tiles.push(bonus_tile);
    let placement = PlacementImpl::new(
        board.start(),
        Orientations::x(),
        vec![new_piece(Some('q'), 5, false), new_piece(Some('i'), 1, false)],
    );
    assert_eq!(board.calculate_points(&placement), 31);
    match board.place(&placement) {
        Ok(points) => assert_eq!(points, 31),
        Err(_) => panic!("a placement over the start must succeed"),
    }
}

#[test]
fn board_calculate_points_does_not_mutate() {
    let board = empty_board();
    let placement = PlacementImpl::new(
        board.start(),
        Orientations::x(),
        vec![new_piece(Some('a'), 4, false)],
    );
    let _ = board.calculate_points(&placement);
    assert!(board.tiles().occupied_tiles().is_empty());
}
