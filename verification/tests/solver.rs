use std::collections::HashSet;
use std::collections::VecDeque;

use huarong::blocks;
use huarong::parse_state;
use huarong::show_solve;
use huarong::step_messages;
use huarong::try_move;
use huarong::Block;
use huarong::Board;
use huarong::Cell;
use huarong::Dir;
use huarong::Error;
use huarong::Game;
use huarong::HRD;

const LEVEL2: &str = "
    vvxv
    vvxv
    vvcc
    vvcc
    pppp
    ";

const LEVEL3: &str = "
    phhp
    vccv
    vccv
    vppv
    vxxv
    ";

const SOLVED: &str = "
    vxxv
    vppv
    phhp
    vccv
    vccv
    ";

fn is_goal(b: &Board) -> bool {
    b.cells[17] == Cell::General && b.cells[18] == Cell::General
}

/// Independent breadth-first check of the shortest solution length, deduced
/// from the library's own move generator.
fn oracle_shortest(start: &Board) -> Option<usize> {
    let mut seen: HashSet<Vec<Cell>> = HashSet::new();
    let mut queue: VecDeque<(Board, usize)> = VecDeque::new();
    seen.insert(start.cells.clone());
    queue.push_back((dup(start), 0));
    while let Some((b, depth)) = queue.pop_front() {
        if is_goal(&b) {
            return Some(depth);
        }
        let g = Game::new_unchecked(&b);
        let mut kids: Vec<Board> = Vec::new();
        g.next_nodes(&mut kids);
        for kid in kids {
            if seen.insert(kid.cells.clone()) {
                queue.push_back((kid, depth + 1));
            }
        }
    }
    None
}

fn dup(b: &Board) -> Board {
    Board { cells: b.cells.clone() }
}

#[test]
fn level0_test() {
    // the blank layout has no blocks, so validation refuses it
    let r = show_solve(blocks(), 1024);
    assert!(r.is_err());
    assert_eq!(r.err().unwrap(), Error::InvalidBoard);
}

#[test]
fn level2_test() {
    let steps = show_solve(LEVEL2, 1024).unwrap();
    assert!(steps.len() > 0);
}

#[test]
fn level3_test() {
    let steps = show_solve(LEVEL3, 1024).unwrap();
    assert!(steps.len() > 0);
}

#[test]
fn validating_extraction_counts_and_round_trip() {
    let b = parse_state(LEVEL2).unwrap();
    let g = Game::new(&b).unwrap();
    assert_eq!(g.blocks.len(), 10);
    let generals = g.blocks.iter().filter(|e| e.ty == Cell::General).count();
    assert_eq!(generals, 1);
    assert_eq!(g.empty_cell.len(), 2);
    // the two empty cells come in row-major scan order
    assert_eq!(g.empty_cell, vec![(2, 0), (2, 1)]);
    // repaint the blocks onto a blank grid and compare
    let mut grid = vec![Cell::Empty; 20];
    for blk in &g.blocks {
        let cells: &[(usize, usize)] = match blk.ty {
            Cell::General => &[(0, 0), (1, 0), (0, 1), (1, 1)],
            Cell::Horizontal => &[(0, 0), (1, 0)],
            Cell::Vertical => &[(0, 0), (0, 1)],
            Cell::Pawn => &[(0, 0)],
            Cell::Empty => &[],
        };
        for (dx, dy) in cells {
            grid[(blk.y + dy) * 4 + blk.x + dx] = blk.ty;
        }
    }
    assert_eq!(grid, b.cells);
}

#[test]
fn generator_preserves_cell_counts() {
    let b = parse_state(LEVEL2).unwrap();
    let g = Game::new(&b).unwrap();
    let mut kids: Vec<Board> = Vec::new();
    g.next_nodes(&mut kids);
    assert!(kids.len() > 0);
    let occupied = b.cells.iter().filter(|c| **c != Cell::Empty).count();
    for kid in &kids {
        let kid_occupied = kid.cells.iter().filter(|c| **c != Cell::Empty).count();
        assert_eq!(kid_occupied, occupied);
        let empties = kid.cells.iter().filter(|c| **c == Cell::Empty).count();
        assert_eq!(empties, 2);
    }
}

#[test]
fn generator_moves_of_canonical_start() {
    let b = parse_state(LEVEL2).unwrap();
    let g = Game::new(&b).unwrap();
    let mut kids: Vec<Board> = Vec::new();
    g.next_nodes(&mut kids);
    // only the two tall dominoes beside the gap can slide
    assert_eq!(kids.len(), 2);
    assert_eq!(g.move_message(&kids[0]).unwrap(), "(1,0) R");
    assert_eq!(g.move_message(&kids[1]).unwrap(), "(3,0) L");
    // a non-adjacent state is refused
    assert!(g.move_message(&b).is_err());
}

#[test]
fn search_finds_shortest_solution() {
    let b = parse_state(LEVEL2).unwrap();
    let hrd = HRD::new(&b).unwrap();
    let node = hrd.solve(1024).unwrap();
    let oracle = oracle_shortest(&b).unwrap();
    assert!(oracle > 0);
    assert_eq!(node.len as usize, oracle);
    let steps = step_messages(&node).unwrap();
    assert_eq!(steps.len(), oracle);
}

#[test]
fn narrated_moves_replay_to_the_goal() {
    let b = parse_state(LEVEL2).unwrap();
    let hrd = HRD::new(&b).unwrap();
    let node = hrd.solve(1024).unwrap();
    let steps = step_messages(&node).unwrap();
    let mut cur = dup(&b);
    for msg in &steps {
        let bytes = msg.as_bytes();
        // "(x,y) D" with single-digit coordinates
        let x = (bytes[1] - b'0') as usize;
        let y = (bytes[3] - b'0') as usize;
        let label = &msg[6..];
        let d = match label {
            "U" => Dir::Up,
            "U2" => Dir::Up2,
            "D" => Dir::Down,
            "D2" => Dir::Down2,
            "L" => Dir::Left,
            "L2" => Dir::Left2,
            "R" => Dir::Right,
            _ => Dir::Right2,
        };
        let g = Game::new_unchecked(&cur);
        let blk: Block = *g
            .blocks
            .iter()
            .find(|e| e.x == x && e.y == y)
            .expect("narrated move names a real block");
        let next = try_move(&cur, blk, d).expect("narrated move is legal");
        cur = next;
    }
    assert!(is_goal(&cur));
    assert_eq!(cur.cells, node.val.cells);
}

#[test]
fn solved_start_gives_no_narration() {
    let b = parse_state(SOLVED).unwrap();
    let hrd = HRD::new(&b).unwrap();
    let node = hrd.solve(1024).unwrap();
    assert_eq!(node.len, 0);
    let r = step_messages(&node);
    assert_eq!(r.err().unwrap(), Error::NoSteps);
}

#[test]
fn budget_of_one_is_exhausted() {
    let b = parse_state(LEVEL2).unwrap();
    let hrd = HRD::new(&b).unwrap();
    let r = hrd.solve(1);
    assert_eq!(r.err().unwrap(), Error::BudgetExceeded(1));
}

#[test]
fn parse_rejects_bad_input() {
    assert_eq!(parse_state("q").err().unwrap(), Error::BadToken);
    assert_eq!(parse_state("vvxv\nvvxv\nvvcc").err().unwrap(), Error::BadSize);
    assert_eq!(parse_state("vvxvv\nvvxv\nvvcc\nvvcc\npppp").err().unwrap(), Error::BadSize);
    assert_eq!(parse_state("vv xv\nvvxv\nvvcc\nvvcc\npppp").err().unwrap(), Error::BadToken);
    assert!(parse_state(LEVEL2).is_ok());
}

#[test]
fn generator_is_deterministic() {
    let b = parse_state(LEVEL3).unwrap();
    let g = Game::new(&b).unwrap();
    let mut first: Vec<Board> = Vec::new();
    let mut second: Vec<Board> = Vec::new();
    g.next_nodes(&mut first);
    g.next_nodes(&mut second);
    assert_eq!(first.len(), second.len());
    for (a, b2) in first.iter().zip(second.iter()) {
        assert_eq!(a.cells, b2.cells);
    }
}
