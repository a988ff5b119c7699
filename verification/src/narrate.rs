use vstd::prelude::*;

use vstd::string::StringExecFns;

use crate::board::Board;
use crate::board::Block;
use crate::board::seated;
use crate::blocks::Game;
use crate::blocks::generated_ok;
use crate::blocks::scan_of;
use crate::blocks::valid_board;
use crate::codec::parse_chars;
use crate::codec::parse_state;
use crate::error::Error;
use crate::moves::Dir;
use crate::moves::apply_move;
use crate::moves::move_ok;
use crate::moves::try_move;
use crate::search::HRD;
use crate::search::is_goal;
use crate::search::Node;

verus! {

/// The character of one digit below five.
pub open spec fn digit_char(n: int) -> char {
    if n == 0 {
        '0'
    } else if n == 1 {
        '1'
    } else if n == 2 {
        '2'
    } else if n == 3 {
        '3'
    } else {
        '4'
    }
}

/// The label of a slide: its direction, with a trailing 2 for a two-cell
/// slide.
pub open spec fn dir_label(d: Dir) -> Seq<char> {
    match d {
        Dir::Up => seq!['U'],
        Dir::Up2 => seq!['U', '2'],
        Dir::Down => seq!['D'],
        Dir::Down2 => seq!['D', '2'],
        Dir::Left => seq!['L'],
        Dir::Left2 => seq!['L', '2'],
        Dir::Right => seq!['R'],
        Dir::Right2 => seq!['R', '2'],
    }
}

/// One move description: the moved block's anchor before the slide, then the
/// slide's label.
pub open spec fn msg_of(b: Block, d: Dir) -> Seq<char> {
    seq!['('] + seq![digit_char(b.x as int)] + seq![','] + seq![digit_char(b.y as int)] + seq![
        ')',
        ' ',
    ] + dir_label(d)
}

/// The message `m` describes a legal slide that turns `prev` into `next`.
pub open spec fn narrated_ok(prev: Seq<crate::board::Cell>, next: Seq<crate::board::Cell>, m: Seq<char>) -> bool {
    exists|b: Block, d: Dir|
        #[trigger] move_ok(prev, b, d) && next == apply_move(prev, b, d) && m == msg_of(b, d)
}

/// The digit text of a coordinate.
fn digit_str(n: usize) -> (r: &'static str)
    requires
        n < 5,
    ensures
        r@ == seq![digit_char(n as int)],
{
    proof {
        reveal_strlit("0");
        reveal_strlit("1");
        reveal_strlit("2");
        reveal_strlit("3");
        reveal_strlit("4");
    }
    if n == 0 {
        "0"
    } else if n == 1 {
        "1"
    } else if n == 2 {
        "2"
    } else if n == 3 {
        "3"
    } else {
        "4"
    }
}

/// The label text of a slide.
fn dir_str(d: Dir) -> (r: &'static str)
    ensures
        r@ == dir_label(d),
{
    proof {
        reveal_strlit("U");
        reveal_strlit("U2");
        reveal_strlit("D");
        reveal_strlit("D2");
        reveal_strlit("L");
        reveal_strlit("L2");
        reveal_strlit("R");
        reveal_strlit("R2");
    }
    match d {
        Dir::Up => "U",
        Dir::Up2 => "U2",
        Dir::Down => "D",
        Dir::Down2 => "D2",
        Dir::Left => "L",
        Dir::Left2 => "L2",
        Dir::Right => "R",
        Dir::Right2 => "R2",
    }
}

/// Render one move description.
fn render_move(b: Block, d: Dir) -> (m: String)
    requires
        b.wf(),
    ensures
        m@ == msg_of(b, d),
{
    proof {
        reveal_strlit("(");
        reveal_strlit(",");
        reveal_strlit(") ");
    }
    let mut m = String::new();
    m.append("(");
    m.append(digit_str(b.x));
    m.append(",");
    m.append(digit_str(b.y));
    m.append(") ");
    m.append(dir_str(d));
    proof {
        assert(m@ =~= msg_of(b, d));
    }
    m
}

/// The slide of `b`, if any, that turns `s` into exactly `next`.
fn match_move(s: &Board, b: Block, next: &Board) -> (r: Option<Dir>)
    requires
        s.wf(),
        next.wf(),
        seated(s@, b),
    ensures
        r matches Some(d) ==> move_ok(s@, b, d) && next@ == apply_move(s@, b, d),
        r is None ==> forall|d: Dir| !(#[trigger] move_ok(s@, b, d) && next@ == apply_move(s@, b, d)),
{
    if let Some(nb) = try_move(s, b, Dir::Up) {
        if nb.same_as(next) {
            return Some(Dir::Up);
        }
    }
    if let Some(nb) = try_move(s, b, Dir::Up2) {
        if nb.same_as(next) {
            return Some(Dir::Up2);
        }
    }
    if let Some(nb) = try_move(s, b, Dir::Down) {
        if nb.same_as(next) {
            return Some(Dir::Down);
        }
    }
    if let Some(nb) = try_move(s, b, Dir::Down2) {
        if nb.same_as(next) {
            return Some(Dir::Down2);
        }
    }
    if let Some(nb) = try_move(s, b, Dir::Left) {
        if nb.same_as(next) {
            return Some(Dir::Left);
        }
    }
    if let Some(nb) = try_move(s, b, Dir::Left2) {
        if nb.same_as(next) {
            return Some(Dir::Left2);
        }
    }
    if let Some(nb) = try_move(s, b, Dir::Right) {
        if nb.same_as(next) {
            return Some(Dir::Right);
        }
    }
    if let Some(nb) = try_move(s, b, Dir::Right2) {
        if nb.same_as(next) {
            return Some(Dir::Right2);
        }
    }
    None
}

impl Game {
    /// Describe the single slide that turns this board into `next`: fails
    /// with a consistency error when no listed block reaches `next` in one
    /// legal slide.
    pub fn move_message(&self, next: &Board) -> (r: Result<String, Error>)
        requires
            self.wf(),
            next.wf(),
        ensures
            r matches Ok(m) ==> exists|i: int, d: Dir|
                0 <= i < self.blocks@.len() && #[trigger] move_ok(self.state@, self.blocks@[i], d)
                    && next@ == apply_move(self.state@, self.blocks@[i], d) && m@ == msg_of(
                    self.blocks@[i],
                    d,
                ),
            r is Ok <==> generated_ok(self.state@, self.blocks@, *next),
            r matches Err(e) ==> e == Error::InconsistentStep,
    {
        let mut i: usize = 0;
        while i < self.blocks.len()
            invariant
                self.wf(),
                next.wf(),
                i <= self.blocks@.len(),
                forall|ii: int, d: Dir|
                    0 <= ii < i ==> !(#[trigger] move_ok(self.state@, self.blocks@[ii], d) && next@
                        == apply_move(self.state@, self.blocks@[ii], d)),
            decreases self.blocks@.len() - i,
        {
            let b = self.blocks[i];
            if let Some(d) = match_move(&self.state, b, next) {
                let m = render_move(b, d);
                return Ok(m);
            }
            i = i + 1;
        }
        Err(Error::InconsistentStep)
    }
}

impl Node {
    /// The boards of this node's chain, from the root board to its own.
    pub open spec fn chain_boards(self) -> Seq<Seq<crate::board::Cell>>
        decreases self,
    {
        match self.parent {
            None => seq![self.val@],
            Some(p) => p.chain_boards().push(self.val@),
        }
    }

    /// A well-formed chain holds one board more than its move count.
    pub proof fn lemma_chain_len(&self)
        requires
            self.wf_chain(),
        ensures
            self.chain_boards().len() == self.len + 1,
        decreases *self,
    {
        match self.parent {
            None => {},
            Some(p) => {
                p.lemma_chain_len();
            },
        }
    }
}

/// Narrate a solution chain: one move description per slide, in play order
/// from the first move to the last. Each description names a legal slide that
/// turns its board of the chain into the next one; a root node with no
/// ancestors is refused.
pub fn step_messages(node: &Node) -> (r: Result<Vec<String>, Error>)
    requires
        node.wf_chain(),
    ensures
        r is Err <==> node.len == 0,
        r matches Err(e) ==> e == Error::NoSteps,
        r matches Ok(msgs) ==> {
            &&& msgs@.len() == node.len
            &&& forall|k: int|
                0 <= k < msgs@.len() ==> narrated_ok(
                    node.chain_boards()[k],
                    node.chain_boards()[k + 1],
                    (#[trigger] msgs@[k])@,
                )
        },
{
    proof {
        node.lemma_chain_len();
    }
    if node.len == 0 {
        return Err(Error::NoSteps);
    }
    let ghost whole = node.chain_boards();
    let mut rev: Vec<String> = Vec::new();
    let mut cur: &Node = node;
    while cur.len > 0
        invariant
            node.wf_chain(),
            cur.wf_chain(),
            whole == node.chain_boards(),
            whole.len() == node.len + 1,
            cur.len <= node.len,
            rev@.len() + cur.len == node.len,
            cur.chain_boards() == whole.take(cur.len + 1),
            forall|j: int|
                0 <= j < rev@.len() ==> narrated_ok(
                    whole[node.len - 1 - j],
                    whole[node.len - j],
                    (#[trigger] rev@[j])@,
                ),
        decreases cur.len,
    {
        match &cur.parent {
            None => {
                proof {
                    assert(false);
                }
            },
            Some(p) => {
                proof {
                    assert(p.wf_chain());
                    assert(p.val.wf());
                    p.lemma_chain_len();
                    assert(p.chain_boards() =~= whole.take(cur.len as int));
                }
                let g = Game::new_unchecked(&p.val);
                proof {
                    let (i, d) = choose|i: int, d: Dir|
                        0 <= i < scan_of(p.val@).blocks.len() && #[trigger] move_ok(
                            p.val@,
                            scan_of(p.val@).blocks[i],
                            d,
                        ) && cur.val@ == apply_move(p.val@, scan_of(p.val@).blocks[i], d);
                    assert(move_ok(g.state@, g.blocks@[i], d));
                    assert(generated_ok(g.state@, g.blocks@, cur.val));
                }
                match g.move_message(&cur.val) {
                    Ok(m) => {
                        proof {
                            assert(whole.take(cur.len + 1)[cur.len as int] == cur.val@);
                            assert(whole.take(cur.len + 1)[cur.len - 1] == p.val@);
                        }
                        rev.push(m);
                        cur = p;
                    },
                    Err(_) => {
                        // unreachable: the chain's slide was found above
                        proof {
                            assert(false);
                        }
                        return Err(Error::NoSteps);
                    },
                }
            },
        }
    }
    let mut msgs: Vec<String> = Vec::new();
    while rev.len() > 0
        invariant
            node.wf_chain(),
            whole == node.chain_boards(),
            whole.len() == node.len + 1,
            rev@.len() + msgs@.len() == node.len,
            forall|j: int|
                0 <= j < rev@.len() ==> narrated_ok(
                    whole[node.len - 1 - j],
                    whole[node.len - j],
                    (#[trigger] rev@[j])@,
                ),
            forall|k: int|
                0 <= k < msgs@.len() ==> narrated_ok(
                    whole[k],
                    whole[k + 1],
                    (#[trigger] msgs@[k])@,
                ),
        decreases rev@.len(),
    {
        if let Some(m) = rev.pop() {
            proof {
                assert(narrated_ok(
                    whole[node.len - 1 - (rev@.len() as int)],
                    whole[node.len - (rev@.len() as int)],
                    m@,
                ));
            }
            msgs.push(m);
        }
    }
    Ok(msgs)
}

/// The narration `msgs` matches the solution chain of `n`: the chain is a
/// run of legal slides ending at a goal board, and each message names the
/// slide between its two consecutive boards.
pub open spec fn narrates(n: Node, msgs: Seq<String>) -> bool {
    &&& n.wf_chain()
    &&& is_goal(n.val@)
    &&& n.len > 0
    &&& msgs.len() == n.len
    &&& forall|k: int|
        0 <= k < msgs.len() ==> narrated_ok(
            n.chain_boards()[k],
            n.chain_boards()[k + 1],
            (#[trigger] msgs[k])@,
        )
}

/// Parse a textual layout, solve it within `limit` nodes, and narrate the
/// path the breadth-first search found: the move descriptions in play order.
/// A parse or
/// validation failure surfaces as the corresponding error; on success the
/// messages narrate a legal-slide chain from the parsed board to a goal
/// board.
pub fn show_solve(state: &str, limit: usize) -> (r: Result<Vec<String>, Error>)
    ensures
        r matches Ok(msgs) ==> msgs@.len() > 0,
        r matches Ok(msgs) ==> (parse_chars(state@) matches Ok(cs) && exists|n: Node|
            #[trigger] narrates(n, msgs@) && n.root() == cs),
        parse_chars(state@) matches Err(e) ==> (r matches Err(e2) && e2 == e),
        (parse_chars(state@) matches Ok(cs) && !valid_board(cs)) ==> (r matches Err(e2) && e2
            == Error::InvalidBoard),
{
    let board = match parse_state(state) {
        Ok(b) => b,
        Err(e) => {
            return Err(e);
        },
    };
    let hrd = match HRD::new(&board) {
        Ok(h) => h,
        Err(e) => {
            return Err(e);
        },
    };
    let node = match hrd.solve(limit) {
        Ok(n) => n,
        Err(e) => {
            return Err(e);
        },
    };
    let r = step_messages(&node);
    match r {
        Ok(msgs) => {
            proof {
                assert(narrates(node, msgs@));
            }
            Ok(msgs)
        },
        Err(e) => Err(e),
    }
}

/// A blank layout of empty cells only, which the
/// validating extraction rejects out of hand.
pub fn blocks() -> (r: &'static str)
    ensures
        r@ == "\n    xxxx\n    xxxx\n    xxxx\n    xxxx\n    xxxx\n    "@,
{
    "\n    xxxx\n    xxxx\n    xxxx\n    xxxx\n    xxxx\n    "
}

} // verus!
