use vstd::prelude::*;

use crate::strings::{concat2, push_char};

verus! {

/// The characters at which the explorer cuts a path into components: `/` and `'`.
pub open spec fn is_path_sep(c: char) -> bool {
    c == '/' || c == '\''
}

/// The last component of a path: what follows its last separator (the whole path when it has
/// none).
pub open spec fn last_component(s: Seq<char>) -> Seq<char>
    decreases s.len(),
{
    if s.len() == 0 {
        s
    } else if is_path_sep(s.last()) {
        Seq::empty()
    } else {
        last_component(s.drop_last()).push(s.last())
    }
}

/// The last component holds no separator and ends the path.
pub proof fn lemma_last_component(s: Seq<char>)
    ensures
        last_component(s).len() <= s.len(),
        last_component(s) == s.skip(s.len() - last_component(s).len()),
        forall|i: int| 0 <= i < last_component(s).len() ==> !is_path_sep(#[trigger] last_component(s)[i]),
        last_component(s).len() < s.len() ==> is_path_sep(s[s.len() - last_component(s).len() - 1]),
    decreases s.len(),
{
    if s.len() > 0 {
        lemma_last_component(s.drop_last());
        if !is_path_sep(s.last()) {
            let p = last_component(s.drop_last());
            assert(s.drop_last().skip(s.len() - 1 - p.len()).push(s.last()) =~= s.skip(s.len() - (p.len() + 1)));
            assert forall|i: int| 0 <= i < last_component(s).len() implies !is_path_sep(#[trigger] last_component(s)[i]) by {
                if i < p.len() {
                    assert(last_component(s)[i] == p[i]);
                }
            }
        } else {
            assert(s.skip(s.len() as int) =~= Seq::<char>::empty());
        }
    }
}

/// The last component of `path` (see [`last_component`]).
pub fn last_path_component(path: &str) -> (r: String)
    ensures
        r@ == last_component(path@),
{
    broadcast use vstd::string::group_string_axioms;

    let mut cur = String::new();
    for c in it: path.chars()
        invariant
            it.seq() == path@,
            cur@ == last_component(path@.take(it.index())),
    {
        proof {
            assert(path@.take(it.index() + 1).drop_last() =~= path@.take(it.index()));
        }
        if c == '/' || c == '\'' {
            cur = String::new();
        } else {
            push_char(&mut cur, c);
        }
    }
    proof {
        assert(path@.take(path@.len() as int) =~= path@);
    }
    cur
}

/// ASCII upper case of one character: `a`..`z` become `A`..`Z`, everything else is kept.
pub open spec fn ascii_upper(c: char) -> char {
    if 'a' <= c <= 'z' {
        ((c as u32) - 32) as char
    } else {
        c
    }
}

/// ASCII upper case of a text, character by character.
pub open spec fn ascii_upper_text(s: Seq<char>) -> Seq<char> {
    s.map_values(|c: char| ascii_upper(c))
}

/// The ASCII upper case of `s` (see [`ascii_upper_text`]).
pub fn to_ascii_upper(s: &str) -> (r: String)
    ensures
        r@ == ascii_upper_text(s@),
{
    broadcast use vstd::string::group_string_axioms;

    let mut r = String::new();
    for c in it: s.chars()
        invariant
            it.seq() == s@,
            r@ == ascii_upper_text(s@.take(it.index())),
    {
        proof {
            assert(s@.take(it.index() + 1) =~= s@.take(it.index()).push(c));
            assert(ascii_upper_text(s@.take(it.index() + 1)) =~= ascii_upper_text(
                s@.take(it.index()),
            ).push(ascii_upper(c)));
        }
        if 'a' <= c && c <= 'z' {
            let u = ((c as u8) - 32) as char;
            proof {
                assert(u == ascii_upper(c));
            }
            push_char(&mut r, u);
        } else {
            push_char(&mut r, c);
        }
    }
    proof {
        assert(s@.take(s@.len() as int) =~= s@);
    }
    r
}

/// The explorer's label of an entry: the last component of its path, after `./` for a
/// directory.
pub open spec fn entry_label(path: Seq<char>, is_dir: bool) -> Seq<char> {
    if is_dir {
        seq!['.', '/'] + last_component(path)
    } else {
        last_component(path)
    }
}

/// The explorer's label of an entry (see [`entry_label`]).
pub fn entry_label_of(path: &str, is_dir: bool) -> (r: String)
    ensures
        r@ == entry_label(path@, is_dir),
{
    let name = last_path_component(path);
    if is_dir {
        let prefix = "./";
        proof {
            reveal_strlit("./");
        }
        let r = concat2(prefix.to_owned(), name.as_str());
        proof {
            assert(r@ =~= seq!['.', '/'] + last_component(path@));
        }
        r
    } else {
        name
    }
}

/// The heading of the explorer: `CWD: ./` and the upper-cased last component of the working
/// directory, or `CWD: ./WD404` when the directory has no readable name.
pub open spec fn cwd_label(wd: Option<Seq<char>>) -> Seq<char> {
    let name = match wd {
        Some(w) => last_component(w),
        None => seq!['W', 'D', '4', '0', '4'],
    };
    ascii_upper_text(seq!['c', 'w', 'd', ':', ' ', '.', '/'] + name)
}

/// The heading of the explorer (see [`cwd_label`]).
pub fn cwd_label_of(wd: Option<&str>) -> (r: String)
    ensures
        r@ == cwd_label(
            match wd {
                Some(w) => Some(w@),
                None => None,
            },
        ),
{
    let name = match wd {
        Some(w) => last_path_component(w),
        None => {
            let n = "WD404";
            proof {
                reveal_strlit("WD404");
            }
            n.to_owned()
        },
    };
    let prefix = "cwd: ./";
    proof {
        reveal_strlit("cwd: ./");
    }
    let full = concat2(prefix.to_owned(), name.as_str());
    proof {
        assert(prefix@ =~= seq!['c', 'w', 'd', ':', ' ', '.', '/']);
        match wd {
            Some(w) => {},
            None => { assert(name@ =~= seq!['W', 'D', '4', '0', '4']); },
        }
    }
    to_ascii_upper(full.as_str())
}

} // verus!
