use vstd::prelude::*;
use crate::text::{push_char, starts_with_char};

verus! {

/// The pieces of a path between its `/` separators, in order; empty pieces
/// stand where separators are doubled or come first or last.
pub open spec fn segments(path: Seq<char>) -> Seq<Seq<char>>
    decreases path.len(),
{
    if path.len() == 0 {
        seq![Seq::empty()]
    } else {
        let s = segments(path.drop_last());
        if path.last() == '/' {
            s.push(Seq::empty())
        } else {
            s.update(s.len() - 1, s.last().push(path.last()))
        }
    }
}

/// A piece that names something: neither empty nor the current directory `.`.
pub open spec fn is_named(piece: Seq<char>) -> bool {
    piece.len() > 0 && piece != seq!['.']
}

/// The last piece of `pieces` that names something, if any.
pub open spec fn last_named(pieces: Seq<Seq<char>>) -> Option<Seq<char>>
    decreases pieces.len(),
{
    if pieces.len() == 0 {
        None
    } else if is_named(pieces.last()) {
        Some(pieces.last())
    } else {
        last_named(pieces.drop_last())
    }
}

/// The final component of a `/`-separated path, as `Path::file_name` gives
/// it: the last component that names something, unless that is `..`; none
/// for a path such as `/`, `.` or `a/..`.
pub open spec fn file_name(path: Seq<char>) -> Option<Seq<char>> {
    match last_named(segments(path)) {
        Some(c) => if c == seq!['.', '.'] {
            None
        } else {
            Some(c)
        },
        None => None,
    }
}

/// The name that an entry at `path` is shown under: its file name, or the
/// empty name where the path has none.
pub open spec fn entry_name(path: Seq<char>) -> Seq<char> {
    match file_name(path) {
        Some(n) => n,
        None => Seq::empty(),
    }
}

/// Whether a name marks a hidden entry: it starts with `.`.
pub open spec fn is_hidden_name(name: Seq<char>) -> bool {
    name.len() > 0 && name[0] == '.'
}

proof fn lemma_segments_nonempty(path: Seq<char>)
    ensures
        segments(path).len() > 0,
    decreases path.len(),
{
    if path.len() > 0 {
        lemma_segments_nonempty(path.drop_last());
    }
}

fn is_named_exec(piece: &String) -> (b: bool)
    ensures
        b == is_named(piece@),
{
    let n = piece.as_str().unicode_len();
    if n == 0 {
        false
    } else if n == 1 {
        let c = piece.as_str().get_char(0);
        if c == '.' {
            assert(piece@ =~= seq!['.']);
            false
        } else {
            assert(piece@ != seq!['.']) by {
                assert(piece@[0] != seq!['.'][0]);
            }
            true
        }
    } else {
        assert(piece@.len() != seq!['.'].len());
        true
    }
}

fn is_dot_dot(piece: &String) -> (b: bool)
    ensures
        b == (piece@ == seq!['.', '.']),
{
    let n = piece.as_str().unicode_len();
    if n != 2 {
        assert(piece@.len() != seq!['.', '.'].len());
        false
    } else {
        let a = piece.as_str().get_char(0);
        let b = piece.as_str().get_char(1);
        if a == '.' && b == '.' {
            assert(piece@ =~= seq!['.', '.']);
            true
        } else {
            assert(piece@ != seq!['.', '.']) by {
                if a != '.' {
                    assert(piece@[0] != seq!['.', '.'][0]);
                } else {
                    assert(piece@[1] != seq!['.', '.'][1]);
                }
            }
            false
        }
    }
}

/// The final component of `path` (see `file_name`).
pub fn path_file_name(path: &str) -> (r: Option<String>)
    ensures
        match r {
            Some(n) => file_name(path@) == Some(n@),
            None => file_name(path@) is None,
        },
{
    let n = path.unicode_len();
    let mut best: Option<String> = None;
    let mut cur = String::new();
    let mut i: usize = 0;
    proof {
        assert(path@.take(0) =~= Seq::<char>::empty());
    }
    while i < n
        invariant
            i <= n,
            n == path@.len(),
            segments(path@.take(i as int)).last() == cur@,
            last_named(segments(path@.take(i as int)).drop_last()) == match best {
                Some(b) => Some(b@),
                None => None::<Seq<char>>,
            },
        decreases n - i,
    {
        let c = path.get_char(i);
        let ghost prev = path@.take(i as int);
        let ghost next = path@.take(i + 1);
        proof {
            assert(next.drop_last() =~= prev);
            assert(next.last() == c);
            lemma_segments_nonempty(prev);
        }
        if c == '/' {
            if is_named_exec(&cur) {
                best = Some(cur);
            }
            cur = String::new();
            proof {
                let s = segments(prev);
                assert(segments(next) == s.push(Seq::<char>::empty()));
                assert(segments(next).drop_last() =~= s);
                assert(s =~= s.drop_last().push(s.last()));
            }
        } else {
            push_char(&mut cur, c);
            proof {
                let s = segments(prev);
                assert(segments(next) == s.update(s.len() - 1, s.last().push(c)));
                assert(segments(next).drop_last() =~= s.drop_last());
            }
        }
        i = i + 1;
    }
    proof {
        assert(path@.take(n as int) =~= path@);
        let s = segments(path@);
        lemma_segments_nonempty(path@);
        assert(s =~= s.drop_last().push(s.last()));
    }
    if is_named_exec(&cur) {
        best = Some(cur);
    }
    match best {
        Some(b) => {
            if is_dot_dot(&b) {
                None
            } else {
                Some(b)
            }
        },
        None => None,
    }
}

/// The name an entry at `path` is shown under (see `entry_name`).
pub fn path_entry_name(path: &str) -> (name: String)
    ensures
        name@ == entry_name(path@),
{
    match path_file_name(path) {
        Some(n) => n,
        None => String::new(),
    }
}

/// Whether `name` marks a hidden entry (see `is_hidden_name`).
pub fn is_hidden(name: &str) -> (b: bool)
    ensures
        b == is_hidden_name(name@),
{
    starts_with_char(name, '.')
}

} // verus!
