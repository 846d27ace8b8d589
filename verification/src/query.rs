//! The query executor's registration logic: deriving a table name from a
//! source's file path, and naming every supplied source before the query
//! text is handed to a relational engine.

use vstd::prelude::*;

verus! {

/// Whether a character may appear in a table name.
pub open spec fn is_ident_char(c: char) -> bool {
    ('a' <= c && c <= 'z') || ('A' <= c && c <= 'Z') || ('0' <= c && c <= '9') || c == '_'
}

/// Whether a character is an ASCII digit.
pub open spec fn is_digit_char(c: char) -> bool {
    '0' <= c && c <= '9'
}

/// Every character kept, every other replaced by an underscore.
pub open spec fn sanitize(s: Seq<char>) -> Seq<char> {
    Seq::new(
        s.len(),
        |i: int|
            if is_ident_char(s[i]) {
                s[i]
            } else {
                '_'
            },
    )
}

/// The position after the last separator of the path.
pub open spec fn base_start(path: Seq<char>, upto: int) -> int
    decreases upto,
{
    if upto <= 0 {
        0
    } else if path[upto - 1] == '/' {
        upto
    } else {
        base_start(path, upto - 1)
    }
}

/// The position of the last dot of the base name, ignoring a dot at its
/// first character.
pub open spec fn last_dot(path: Seq<char>, start: int, upto: int) -> Option<int>
    decreases upto - start,
{
    if upto <= start + 1 {
        None
    } else if path[upto - 1] == '.' {
        Some(upto - 1)
    } else {
        last_dot(path, start, upto - 1)
    }
}

/// The file stem of a path: the base name without its extension.
pub open spec fn file_stem(path: Seq<char>) -> Seq<char> {
    let s = base_start(path, path.len() as int);
    match last_dot(path, s, path.len() as int) {
        Some(d) => path.subrange(s, d),
        None => path.subrange(s, path.len() as int),
    }
}

/// The table name a source path denotes: its file stem with every
/// character outside ASCII letters, digits, and underscore replaced by an
/// underscore, prefixed with an underscore when it starts with a digit;
/// an empty result defaults to `table`.
pub open spec fn derived_table_name(path: Seq<char>) -> Seq<char> {
    let st = sanitize(file_stem(path));
    if st.len() == 0 {
        "table"@
    } else if is_digit_char(st[0]) {
        seq!['_'] + st
    } else {
        st
    }
}

/// Whether a character may appear in a table name.
fn is_ident_char_exec(c: char) -> (r: bool)
    ensures
        r == is_ident_char(c),
{
    ('a' <= c && c <= 'z') || ('A' <= c && c <= 'Z') || ('0' <= c && c <= '9') || c == '_'
}

/// Derives the table name of a source path.
pub fn derive_table_name(path: &str) -> (r: String)
    ensures
        r@ == derived_table_name(path@),
{
    let n = path.unicode_len();
    let mut start: usize = n;
    while start > 0 && path.get_char(start - 1) != '/'
        invariant
            start <= n,
            n == path@.len(),
            base_start(path@, n as int) == base_start(path@, start as int),
        decreases start,
    {
        start = start - 1;
    }
    proof {
        if start > 0 {
            assert(base_start(path@, start as int) == start);
        }
        assert(base_start(path@, path@.len() as int) == start);
    }
    let mut k: usize = n;
    while k - start > 1 && path.get_char(k - 1) != '.'
        invariant
            start <= k <= n,
            start <= n,
            n == path@.len(),
            last_dot(path@, start as int, n as int) == last_dot(path@, start as int, k as int),
        decreases k,
    {
        k = k - 1;
    }
    let stem_len_end: usize = if k - start > 1 {
        proof {
            assert(last_dot(path@, start as int, k as int) == Some(k - 1 as int));
        }
        k - 1
    } else {
        n
    };
    let ghost se = match last_dot(path@, start as int, path@.len() as int) {
        Some(d) => d,
        None => path@.len() as int,
    };
    proof {
        assert(stem_len_end as int == se);
    }
    let stem = path.substring_char(start, stem_len_end);
    let ghost stemv = file_stem(path@);
    proof {
        assert(stem@ == stemv);
    }
    let sl = stem.unicode_len();
    let mut out = if sl > 0 && {
        let c0 = stem.get_char(0);
        '0' <= c0 && c0 <= '9'
    } {
        let s = String::from_str("_");
        proof {
            reveal_strlit("_");
        }
        s
    } else {
        String::new()
    };
    let ghost prefix = out@;
    let mut i: usize = 0;
    while i < sl
        invariant
            i <= sl,
            sl == stemv.len(),
            stem@ == stemv,
            out@ == prefix + sanitize(stemv).subrange(0, i as int),
        decreases sl - i,
    {
        let c = stem.get_char(i);
        if is_ident_char_exec(c) {
            let piece = stem.substring_char(i, i + 1);
            out.append(piece);
        } else {
            out.append("_");
        }
        proof {
            reveal_strlit("_");
            assert("_"@ =~= seq!['_']);
            assert(out@ =~= prefix + sanitize(stemv).subrange(0, i + 1));
        }
        i = i + 1;
    }
    proof {
        assert(sanitize(stemv).subrange(0, sanitize(stemv).len() as int) =~= sanitize(stemv));
    }
    if out.as_str().unicode_len() == 0 {
        proof {
            assert(sanitize(stemv).len() == 0);
        }
        let t = String::from_str("table");
        return t;
    }
    proof {
        if sanitize(stemv).len() > 0 && is_digit_char(sanitize(stemv)[0]) {
            assert(out@ =~= derived_table_name(path@));
        } else {
            assert(out@ =~= derived_table_name(path@));
        }
    }
    out
}

/// Names every supplied source: a user-supplied name where one is given,
/// the derived table name of the source's path otherwise.
pub fn register_sources(paths: &Vec<String>, table_names: &Option<Vec<String>>) -> (r: Vec<String>)
    ensures
        r@.len() == paths@.len(),
        forall|i: int|
            0 <= i < paths@.len() ==> #[trigger] r@[i]@ == (match table_names {
                Some(ns) => if i < ns@.len() {
                    ns@[i]@
                } else {
                    derived_table_name(paths@[i]@)
                },
                None => derived_table_name(paths@[i]@),
            }),
{
    let mut r: Vec<String> = Vec::new();
    let mut i: usize = 0;
    while i < paths.len()
        invariant
            i <= paths@.len(),
            r@.len() == i,
            forall|x: int|
                0 <= x < i ==> #[trigger] r@[x]@ == (match table_names {
                    Some(ns) => if x < ns@.len() {
                        ns@[x]@
                    } else {
                        derived_table_name(paths@[x]@)
                    },
                    None => derived_table_name(paths@[x]@),
                }),
        decreases paths@.len() - i,
    {
        let name = match table_names {
            Some(ns) => {
                if i < ns.len() {
                    ns[i].clone()
                } else {
                    derive_table_name(paths[i].as_str())
                }
            },
            None => derive_table_name(paths[i].as_str()),
        };
        r.push(name);
        i = i + 1;
    }
    r
}

} // verus!
