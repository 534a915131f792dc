use snake_game::grid::Matrix;
use snake_game::snake::{Snake, SnakePiece};

#[test]
fn render_of_an_empty_board() {
    let board = Matrix::new(3, 3);
    assert_eq!(board.render(), ". . .\n. . .\n. . .\n");
}

#[test]
fn render_of_one_cell() {
    let board = Matrix::new(1, 1);
    assert_eq!(board.render(), ".\n");
}

#[test]
fn render_shows_snake_and_food() {
    let mut board = Matrix::new(4, 4);
    board.food.x = 3;
    board.food.y = 0;
    board.draw_food();
    let snake = Snake {
        snake_body: vec![
            SnakePiece { display_char: '#', x: 1, y: 2, dx: 1, dy: 0 },
            SnakePiece { display_char: '#', x: 0, y: 2, dx: 1, dy: 0 },
        ],
    };
    board.draw_snake(&snake);
    assert_eq!(board.render(), ". . . *\n. . . .\n# # . .\n. . . .\n");
}

#[test]
fn render_of_the_starting_size() {
    let board = Matrix::new(15, 15);
    let text = board.render();
    let row = ". . . . . . . . . . . . . . .\n";
    assert_eq!(row.len(), 30);
    assert_eq!(text, row.repeat(15));
}

#[test]
fn render_of_boards_that_are_not_square() {
    assert_eq!(Matrix::new(2, 4).render(), ". . . .\n. . . .\n");
    assert_eq!(Matrix::new(3, 1).render(), ".\n.\n.\n");
    assert_eq!(Matrix::new(2, 0).render(), "\n\n");
}

#[test]
fn render_puts_each_glyph_at_its_offset() {
    let mut board = Matrix::new(5, 5);
    board.food.x = 4;
    board.food.y = 3;
    board.draw_food();
    let snake = Snake {
        snake_body: vec![
            SnakePiece { display_char: '#', x: 2, y: 1, dx: 0, dy: 1 },
            SnakePiece { display_char: '#', x: 2, y: 0, dx: 0, dy: 1 },
        ],
    };
    board.draw_snake(&snake);
    let text: Vec<char> = board.render().chars().collect();
    assert_eq!(text.len(), 5 * 10);
    for y in 0..5 {
        for x in 0..5 {
            assert_eq!(text[y * 10 + 2 * x], board.matrix[y][x].display_char);
            let after = if x == 4 { '\n' } else { ' ' };
            assert_eq!(text[y * 10 + 2 * x + 1], after);
        }
    }
    assert_eq!(text[4], '#');
    assert_eq!(text[10 + 4], '#');
    assert_eq!(text[30 + 8], '*');
}
