//! Endpoint key derivation: from a directory path and a file name to the URL
//! path under which the file's content is served.
//!
//! The rule: only names of the form `stem.json` with a non-empty stem count.
//! The name `index.json` maps to the directory itself (with every leading
//! `./` removed); any other `stem.json` maps to `directory/stem`.

use vstd::prelude::*;

verus! {

/// The characters of the file-name suffix that marks a JSON file.
pub open spec fn json_suffix() -> Seq<char> {
    seq!['.', 'j', 's', 'o', 'n']
}

/// The characters of the distinguished file name `index.json`.
pub open spec fn index_name() -> Seq<char> {
    seq!['i', 'n', 'd', 'e', 'x', '.', 'j', 's', 'o', 'n']
}

/// A directory path with every leading `./` removed.
pub open spec fn strip_dot_slash(s: Seq<char>) -> Seq<char>
    decreases s.len(),
{
    if s.len() >= 2 && s[0] == '.' && s[1] == '/' {
        strip_dot_slash(s.skip(2))
    } else {
        s
    }
}

/// A file name that the scanner considers: `stem.json` with a non-empty stem.
pub open spec fn is_json_name(name: Seq<char>) -> bool {
    name.len() > 5 && name.subrange(name.len() - 5, name.len() as int) == json_suffix()
}

/// The stem of a JSON file name: everything before the `.json` suffix.
pub open spec fn stem_of(name: Seq<char>) -> Seq<char> {
    name.subrange(0, name.len() - 5)
}

/// The endpoint key derived from a file `name` inside `dir`, or `None` when
/// the file is not considered at all.
pub open spec fn derived_key(dir: Seq<char>, name: Seq<char>) -> Option<Seq<char>> {
    if !is_json_name(name) {
        None
    } else if name == index_name() {
        Some(strip_dot_slash(dir))
    } else {
        Some(strip_dot_slash(dir) + seq!['/'] + stem_of(name))
    }
}

proof fn lemma_json_suffix_chars()
    ensures
        json_suffix().len() == 5,
        json_suffix()[0] == '.',
        json_suffix()[1] == 'j',
        json_suffix()[2] == 's',
        json_suffix()[3] == 'o',
        json_suffix()[4] == 'n',
{
}

proof fn lemma_index_name_chars()
    ensures
        index_name().len() == 10,
        index_name()[0] == 'i',
        index_name()[1] == 'n',
        index_name()[2] == 'd',
        index_name()[3] == 'e',
        index_name()[4] == 'x',
        index_name()[5] == '.',
        index_name()[6] == 'j',
        index_name()[7] == 's',
        index_name()[8] == 'o',
        index_name()[9] == 'n',
{
}

/// The name `index.json` always derives the directory itself as its key.
pub proof fn lemma_index_key(dir: Seq<char>)
    ensures
        derived_key(dir, index_name()) == Some(strip_dot_slash(dir)),
{
    lemma_index_name_chars();
    lemma_json_suffix_chars();
    assert(index_name().subrange(5, 10) =~= json_suffix());
}

/// Removes every leading `./` from a directory path.
pub fn strip_leading_dot_slash(dir: &str) -> (r: String)
    ensures
        r@ == strip_dot_slash(dir@),
{
    let mut s: &str = dir;
    loop
        invariant
            strip_dot_slash(s@) == strip_dot_slash(dir@),
        decreases s@.len(),
    {
        let n = s.unicode_len();
        if n >= 2 && s.get_char(0) == '.' && s.get_char(1) == '/' {
            let rest = s.substring_char(2, n);
            proof {
                assert(rest@ =~= s@.skip(2));
            }
            s = rest;
        } else {
            return s.to_owned();
        }
    }
}

/// Derives the endpoint key for the file `name` inside `dir`, or returns
/// `None` when the name is not of the form `stem.json` with a non-empty stem.
pub fn derive_key(dir: &str, name: &str) -> (r: Option<String>)
    ensures
        r is Some <==> derived_key(dir@, name@) is Some,
        r matches Some(k) ==> derived_key(dir@, name@) == Some(k@),
{
    let n = name.unicode_len();
    if n <= 5 {
        return None;
    }
    let c0 = name.get_char(n - 5);
    let c1 = name.get_char(n - 4);
    let c2 = name.get_char(n - 3);
    let c3 = name.get_char(n - 2);
    let c4 = name.get_char(n - 1);
    proof {
        lemma_json_suffix_chars();
    }
    if !(c0 == '.' && c1 == 'j' && c2 == 's' && c3 == 'o' && c4 == 'n') {
        proof {
            assert(!is_json_name(name@)) by {
                if name@.subrange(name@.len() - 5, name@.len() as int) == json_suffix() {
                    assert(name@[n - 5] == json_suffix()[0]);
                    assert(name@[n - 4] == json_suffix()[1]);
                    assert(name@[n - 3] == json_suffix()[2]);
                    assert(name@[n - 2] == json_suffix()[3]);
                    assert(name@[n - 1] == json_suffix()[4]);
                }
            }
        }
        return None;
    }
    proof {
        assert(name@.subrange(name@.len() - 5, name@.len() as int) =~= json_suffix());
    }
    let is_index = if n == 10 {
        let d0 = name.get_char(0);
        let d1 = name.get_char(1);
        let d2 = name.get_char(2);
        let d3 = name.get_char(3);
        let d4 = name.get_char(4);
        d0 == 'i' && d1 == 'n' && d2 == 'd' && d3 == 'e' && d4 == 'x'
    } else {
        false
    };
    proof {
        lemma_index_name_chars();
        if is_index {
            assert(name@ =~= index_name());
        } else {
            assert(name@ != index_name()) by {
                if name@ == index_name() {
                    assert(name@[0] == 'i' && name@[1] == 'n' && name@[2] == 'd' && name@[3]
                        == 'e' && name@[4] == 'x');
                }
            }
        }
    }
    let stripped = strip_leading_dot_slash(dir);
    if is_index {
        Some(stripped)
    } else {
        let stem = name.substring_char(0, n - 5);
        let key = stripped.concat("/").concat(stem);
        proof {
            reveal_strlit("/");
            assert("/"@ =~= seq!['/']);
            assert(stem@ == stem_of(name@));
        }
        Some(key)
    }
}

} // verus!
