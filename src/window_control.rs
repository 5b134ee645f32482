use vstd::prelude::*;

use crate::text::{chars_of, i64_text, parse_i64, same_chars};

verus! {

/// The eight compass directions in which a window edge or corner can be dragged.
#[derive(Clone, Copy, Debug, PartialEq, Eq, Structural)]
pub enum Direction {
    North,
    South,
    East,
    West,
    NorthEast,
    NorthWest,
    SouthEast,
    SouthWest,
}

/// A decoded window-control message.
#[derive(Clone, Copy, Debug, PartialEq, Eq, Structural)]
pub enum WindowRequest {
    Minimize,
    ToggleMaximize,
    Close,
    Drag,
    Resize(Direction),
    MouseMove(i32, i32),
    MouseDown(i32, i32),
}

pub open spec fn is_delimiter(c: char) -> bool {
    c == ':' || c == ','
}

/// The fields of `s`, cut at every `:` and `,`; there is always at least one.
pub open spec fn fields(s: Seq<char>) -> Seq<Seq<char>>
    decreases s.len(),
{
    if s.len() == 0 {
        seq![Seq::empty()]
    } else {
        let p = fields(s.drop_last());
        if is_delimiter(s.last()) {
            p.push(Seq::empty())
        } else {
            p.update(p.len() - 1, p.last().push(s.last()))
        }
    }
}

proof fn lemma_fields_nonempty(s: Seq<char>)
    ensures
        fields(s).len() >= 1,
    decreases s.len(),
{
    if s.len() > 0 {
        lemma_fields_nonempty(s.drop_last());
    }
}

pub open spec fn direction_named(name: Seq<char>) -> Option<Direction> {
    if name == "north"@ {
        Some(Direction::North)
    } else if name == "south"@ {
        Some(Direction::South)
    } else if name == "east"@ {
        Some(Direction::East)
    } else if name == "west"@ {
        Some(Direction::West)
    } else if name == "north-west"@ {
        Some(Direction::NorthWest)
    } else if name == "north-east"@ {
        Some(Direction::NorthEast)
    } else if name == "south-west"@ {
        Some(Direction::SouthWest)
    } else if name == "south-east"@ {
        Some(Direction::SouthEast)
    } else {
        None
    }
}

/// The field at `k` read as an `i32` coordinate.
pub open spec fn coordinate(f: Seq<Seq<char>>, k: int) -> Option<i32> {
    if k < f.len() {
        match i64_text(f[k]) {
            Some(n) => if i32::MIN <= n <= i32::MAX {
                Some(n as i32)
            } else {
                None
            },
            None => None,
        }
    } else {
        None
    }
}

pub open spec fn point_request(f: Seq<Seq<char>>, down: bool) -> Option<WindowRequest> {
    match (coordinate(f, 2), coordinate(f, 3)) {
        (Some(x), Some(y)) => if down {
            Some(WindowRequest::MouseDown(x, y))
        } else {
            Some(WindowRequest::MouseMove(x, y))
        },
        _ => None,
    }
}

/// What a window-control message asks for: the first field is the channel
/// prefix, the second the action, and the rest its arguments.
pub open spec fn window_request(s: Seq<char>) -> Option<WindowRequest> {
    let f = fields(s);
    if f.len() < 2 {
        None
    } else {
        let action = f[1];
        if action == "minimize"@ {
            Some(WindowRequest::Minimize)
        } else if action == "toggle_maximize"@ {
            Some(WindowRequest::ToggleMaximize)
        } else if action == "close"@ {
            Some(WindowRequest::Close)
        } else if action == "drag"@ {
            Some(WindowRequest::Drag)
        } else if action == "resize"@ {
            if f.len() < 3 {
                None
            } else {
                match direction_named(f[2]) {
                    Some(d) => Some(WindowRequest::Resize(d)),
                    None => None,
                }
            }
        } else if action == "mouse_move"@ {
            point_request(f, false)
        } else if action == "mouse_down"@ {
            point_request(f, true)
        } else {
            None
        }
    }
}

/// Splits `s` at every `:` and `,`.
pub fn split_fields(s: &Vec<char>) -> (r: Vec<Vec<char>>)
    ensures
        r@.len() == fields(s@).len(),
        forall|k: int| 0 <= k < r@.len() ==> (#[trigger] r@[k])@ == fields(s@)[k],
{
    let mut done: Vec<Vec<char>> = Vec::new();
    let mut cur: Vec<char> = Vec::new();
    let mut i: usize = 0;
    while i < s.len()
        invariant
            i <= s@.len(),
            done@.len() + 1 == fields(s@.take(i as int)).len(),
            forall|k: int| 0 <= k < done@.len() ==> (#[trigger] done@[k])@ == fields(s@.take(i as int))[k],
            cur@ == fields(s@.take(i as int)).last(),
        decreases s@.len() - i,
    {
        proof {
            lemma_fields_nonempty(s@.take(i as int));
            assert(s@.take(i + 1).drop_last() =~= s@.take(i as int));
        }
        let c = s[i];
        if c == ':' || c == ',' {
            done.push(cur);
            cur = Vec::new();
        } else {
            cur.push(c);
        }
        i = i + 1;
    }
    assert(s@.take(s@.len() as int) =~= s@);
    done.push(cur);
    done
}

fn direction_of(name: &Vec<char>) -> (r: Option<Direction>)
    ensures
        r == direction_named(name@),
{
    if same_chars(name, "north") {
        Some(Direction::North)
    } else if same_chars(name, "south") {
        Some(Direction::South)
    } else if same_chars(name, "east") {
        Some(Direction::East)
    } else if same_chars(name, "west") {
        Some(Direction::West)
    } else if same_chars(name, "north-west") {
        Some(Direction::NorthWest)
    } else if same_chars(name, "north-east") {
        Some(Direction::NorthEast)
    } else if same_chars(name, "south-west") {
        Some(Direction::SouthWest)
    } else if same_chars(name, "south-east") {
        Some(Direction::SouthEast)
    } else {
        None
    }
}

fn coordinate_at(f: &Vec<Vec<char>>, k: usize, Ghost(spec_f): Ghost<Seq<Seq<char>>>) -> (r: Option<i32>)
    requires
        f@.len() == spec_f.len(),
        forall|j: int| 0 <= j < f@.len() ==> (#[trigger] f@[j])@ == spec_f[j],
    ensures
        r == coordinate(spec_f, k as int),
{
    if k < f.len() {
        let t = &f[k];
        match parse_i64(t, 0, t.len()) {
            Some(n) => {
                assert(t@.subrange(0, t@.len() as int) =~= t@);
                if n >= i32::MIN as i64 && n <= i32::MAX as i64 {
                    Some(n as i32)
                } else {
                    None
                }
            },
            None => {
                assert(t@.subrange(0, t@.len() as int) =~= t@);
                None
            },
        }
    } else {
        None
    }
}

fn point_of(f: &Vec<Vec<char>>, down: bool, Ghost(spec_f): Ghost<Seq<Seq<char>>>) -> (r: Option<
    WindowRequest,
>)
    requires
        f@.len() == spec_f.len(),
        forall|j: int| 0 <= j < f@.len() ==> (#[trigger] f@[j])@ == spec_f[j],
    ensures
        r == point_request(spec_f, down),
{
    let x = coordinate_at(f, 2, Ghost(spec_f));
    let y = coordinate_at(f, 3, Ghost(spec_f));
    match (x, y) {
        (Some(x), Some(y)) => if down {
            Some(WindowRequest::MouseDown(x, y))
        } else {
            Some(WindowRequest::MouseMove(x, y))
        },
        _ => None,
    }
}

/// Decodes a window-control message (`window_control:<action>[:<arg>[,<arg>]]`).
/// An unknown action, an unknown direction or a coordinate that is missing or
/// is no `i32` gives `None`.
pub fn handle_window_requests(request_body: &str) -> (r: Option<WindowRequest>)
    ensures
        r == window_request(request_body@),
{
    let s = chars_of(request_body);
    let f = split_fields(&s);
    let ghost sf = fields(s@);
    if f.len() < 2 {
        return None;
    }
    let action = &f[1];
    if same_chars(action, "minimize") {
        Some(WindowRequest::Minimize)
    } else if same_chars(action, "toggle_maximize") {
        Some(WindowRequest::ToggleMaximize)
    } else if same_chars(action, "close") {
        Some(WindowRequest::Close)
    } else if same_chars(action, "drag") {
        Some(WindowRequest::Drag)
    } else if same_chars(action, "resize") {
        if f.len() < 3 {
            None
        } else {
            match direction_of(&f[2]) {
                Some(d) => Some(WindowRequest::Resize(d)),
                None => None,
            }
        }
    } else if same_chars(action, "mouse_move") {
        point_of(&f, false, Ghost(sf))
    } else if same_chars(action, "mouse_down") {
        point_of(&f, true, Ghost(sf))
    } else {
        None
    }
}

} // verus!
