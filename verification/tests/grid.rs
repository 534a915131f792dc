use snake_game::grid::{Matrix, Point, EMPTY_GLYPH};
use snake_game::snake::{Snake, SnakePiece};

fn glyphs(board: &Matrix) -> Vec<String> {
    board.matrix.iter().map(|row| row.iter().map(|p| p.display_char).collect()).collect()
}

fn piece(x: isize, y: isize, dx: isize, dy: isize) -> SnakePiece {
    SnakePiece { display_char: '#', x, y, dx, dy }
}

#[test]
fn point_holds_its_glyph() {
    assert_eq!(Point::new('.').display_char, '.');
    assert_eq!(Point::new('#').display_char, '#');
    assert_eq!(EMPTY_GLYPH, '.');
}

#[test]
fn new_board_is_empty_and_square() {
    let board = Matrix::new(15, 15);
    assert_eq!(board.size, 15);
    assert_eq!(board.matrix.len(), 15);
    for row in &board.matrix {
        assert_eq!(row.len(), 15);
        for point in row {
            assert_eq!(point.display_char, '.');
        }
    }
    assert!(board.food.x < 15 && board.food.y < 15);
    assert_eq!(board.food.display_char, '*');
    assert!(board.is_wf());
}

#[test]
fn new_board_of_one_cell() {
    let board = Matrix::new(1, 1);
    assert_eq!(glyphs(&board), vec!["."]);
    assert_eq!((board.food.x, board.food.y), (0, 0));
    assert!(board.is_wf());
}

#[test]
fn new_board_keeps_rows_and_columns_apart() {
    let board = Matrix::new(2, 4);
    assert_eq!(board.size, 2);
    assert_eq!(glyphs(&board), vec!["....", "...."]);
    assert!(board.food.x < 2 && board.food.y < 2);
    assert!(!board.is_wf());
    let board = Matrix::new(3, 0);
    assert_eq!(glyphs(&board), vec!["", "", ""]);
    assert!(!board.is_wf());
}

#[test]
fn get_point_reaches_column_x_of_row_y() {
    let mut board = Matrix::new(4, 4);
    board.get_point(3, 1).display_char = 'o';
    assert_eq!(glyphs(&board), vec!["....", "...o", "....", "...."]);
    assert_eq!(board.get_point(3, 1).display_char, 'o');
    assert_eq!(board.get_point(1, 3).display_char, '.');
}

#[test]
fn convert_back_empties_one_cell() {
    let mut board = Matrix::new(3, 3);
    for row in board.matrix.iter_mut() {
        for point in row.iter_mut() {
            point.display_char = '#';
        }
    }
    let food = board.food;
    board.convert_back(2, 0);
    assert_eq!(glyphs(&board), vec!["##.", "###", "###"]);
    board.convert_back(0, 1);
    assert_eq!(glyphs(&board), vec!["##.", ".##", "###"]);
    board.convert_back(0, 1);
    assert_eq!(glyphs(&board), vec!["##.", ".##", "###"]);
    assert_eq!(board.food, food);
    assert_eq!(board.size, 3);
}

#[test]
fn draw_food_writes_the_foods_glyph() {
    let mut board = Matrix::new(3, 3);
    board.food.x = 2;
    board.food.y = 1;
    board.draw_food();
    assert_eq!(glyphs(&board), vec!["...", "..*", "..."]);
}

#[test]
fn draw_snake_writes_every_segment() {
    let mut board = Matrix::new(4, 4);
    let snake = Snake { snake_body: vec![piece(2, 1, 0, -1), piece(2, 2, 0, -1), piece(1, 2, 1, 0)] };
    board.draw_snake(&snake);
    assert_eq!(glyphs(&board), vec!["....", "..#.", ".##.", "...."]);
}

#[test]
fn draw_snake_covers_the_food() {
    let mut board = Matrix::new(3, 3);
    board.food.x = 1;
    board.food.y = 1;
    board.draw_food();
    board.draw_snake(&Snake::new(1, 1));
    assert_eq!(glyphs(&board), vec!["...", ".#.", "..."]);
}

#[test]
fn edge_collision_just_outside_each_edge() {
    let mut board = Matrix::new(15, 15);
    for (x, y) in [(-1, 0), (-1, 7), (15, 0), (15, 14), (0, -1), (9, -1), (0, 15), (14, 15), (-1, -1), (15, 15)] {
        assert!(board.edge_collision(&Snake::new(x, y)));
    }
    for (x, y) in [(isize::MIN, 3), (isize::MAX, 3), (3, isize::MIN), (3, isize::MAX), (100, 100)] {
        assert!(board.edge_collision(&Snake::new(x, y)));
    }
}

#[test]
fn edge_collision_nowhere_on_the_board() {
    let mut board = Matrix::new(15, 15);
    for y in 0..15 {
        for x in 0..15 {
            assert!(!board.edge_collision(&Snake::new(x, y)));
        }
    }
    assert_eq!(board.size, 15);
}

#[test]
fn edge_collision_looks_at_the_head_only() {
    let mut board = Matrix::new(5, 5);
    let snake = Snake { snake_body: vec![piece(0, 0, 1, 0), piece(-1, 0, 1, 0)] };
    assert!(!board.edge_collision(&snake));
    let snake = Snake { snake_body: vec![piece(5, 0, 1, 0), piece(4, 0, 1, 0)] };
    assert!(board.edge_collision(&snake));
}

#[test]
fn holds_tells_cells_from_other_points() {
    let board = Matrix::new(3, 3);
    assert!(board.holds(0, 0));
    assert!(board.holds(2, 2));
    assert!(board.holds(2, 0));
    assert!(!board.holds(3, 0));
    assert!(!board.holds(0, 3));
    assert!(!board.holds(-1, 0));
    assert!(!board.holds(0, -1));
    assert!(!board.holds(isize::MIN, isize::MAX));
}

#[test]
fn well_formed_boards() {
    let mut board = Matrix::new(3, 3);
    assert!(board.is_wf());
    board.food.x = 3;
    assert!(!board.is_wf());
    board.food.x = 2;
    board.food.display_char = '#';
    assert!(!board.is_wf());
    board.food.display_char = '*';
    board.size = 4;
    assert!(!board.is_wf());
    board.size = 3;
    board.matrix[1].pop();
    assert!(!board.is_wf());
}

#[test]
fn covering_a_snake() {
    let board = Matrix::new(3, 3);
    assert!(board.is_covering(&Snake::new(0, 0)));
    assert!(board.is_covering(&Snake { snake_body: vec![piece(2, 2, 1, 0), piece(1, 2, 1, 0)] }));
    assert!(!board.is_covering(&Snake { snake_body: vec![piece(2, 2, 1, 0), piece(3, 2, 1, 0)] }));
    assert!(!board.is_covering(&Snake::new(0, -1)));
}
