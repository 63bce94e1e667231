//! One Type Language definition, `name#id params = type`, and its parser.
use vstd::prelude::*;

use crate::text::{
    find_char, find_in, find_whitespace, find_ws_in, string_of, trim, trim_range, chars_of,
};

verus! {

/// Which half of a schema a definition comes from.
#[derive(Debug, Clone, Copy, PartialEq, Eq, Structural)]
pub enum Category {
    Types,
    Functions,
}

/// Why a statement of a schema did not give a definition.
#[derive(Debug, Clone, Copy, PartialEq, Eq, Structural)]
pub enum ParseError {
    /// The statement starts like a section marker but names no known section.
    UnknownSeparator,
    /// There is no `=`, or nothing follows it.
    MissingType,
    /// Nothing stands before the `#` of the identifier.
    MissingName,
    /// The first word has no `#` and so no identifier.
    MissingId,
    /// The identifier is not one to eight hexadecimal digits.
    InvalidId,
}

/// A definition of the schema.
#[derive(Debug, PartialEq)]
pub struct Definition {
    /// The name before the `#`.
    pub name: String,
    /// The identifier after the `#`, read as hexadecimal.
    pub id: u32,
    /// What stands between the first word and the `=`, trimmed.
    pub params: String,
    /// What stands after the `=`, trimmed.
    pub ty: String,
    /// The section the definition was found in.
    pub category: Category,
}

/// The content of a `Definition`, as sequences of chars.
pub struct DefinitionView {
    pub name: Seq<char>,
    pub id: u32,
    pub params: Seq<char>,
    pub ty: Seq<char>,
    pub category: Category,
}

impl View for Definition {
    type V = DefinitionView;

    open spec fn view(&self) -> DefinitionView {
        DefinitionView {
            name: self.name@,
            id: self.id,
            params: self.params@,
            ty: self.ty@,
            category: self.category,
        }
    }
}

pub open spec fn is_hex_digit(c: char) -> bool {
    let n = c as u32;
    (48 <= n <= 57) || (97 <= n <= 102) || (65 <= n <= 70)
}

pub open spec fn hex_digit_value(c: char) -> nat {
    let n = c as u32;
    if 48 <= n <= 57 {
        (n - 48) as nat
    } else if 97 <= n <= 102 {
        (n - 87) as nat
    } else {
        (n - 55) as nat
    }
}

/// The number that the hexadecimal digits `s` write, most significant first.
pub open spec fn hex_value(s: Seq<char>) -> nat
    decreases s.len(),
{
    if s.len() == 0 {
        0
    } else {
        hex_value(s.drop_last()) * 16 + hex_digit_value(s.last())
    }
}

/// One to eight hexadecimal digits.
pub open spec fn valid_id(s: Seq<char>) -> bool {
    1 <= s.len() <= 8 && forall|i: int| 0 <= i < s.len() ==> is_hex_digit(#[trigger] s[i])
}

pub open spec fn pow16(k: nat) -> nat
    decreases k,
{
    if k == 0 {
        1
    } else {
        16 * pow16((k - 1) as nat)
    }
}

/// What the statement `t` defines, tagged with `category`.
///
/// The statement splits at its first `=` into a left side and a type; the
/// first word of the left side is `name#id`, the rest are its parameters.
pub open spec fn parse_spec(t: Seq<char>, category: Category) -> Result<DefinitionView, ParseError> {
    let eq = find_in(t, '=');
    if eq >= t.len() {
        Err(ParseError::MissingType)
    } else {
        let left = trim(t.subrange(0, eq));
        let ty = trim(t.subrange(eq + 1, t.len() as int));
        let sp = find_ws_in(left);
        let head = left.subrange(0, sp);
        let hash = find_in(head, '#');
        let digits = head.subrange(hash + 1, head.len() as int);
        if ty.len() == 0 {
            Err(ParseError::MissingType)
        } else if hash == 0 {
            Err(ParseError::MissingName)
        } else if hash >= head.len() {
            Err(ParseError::MissingId)
        } else if !valid_id(digits) {
            Err(ParseError::InvalidId)
        } else {
            Ok(
                DefinitionView {
                    name: head.subrange(0, hash),
                    id: hex_value(digits) as u32,
                    params: trim(left.subrange(sp, left.len() as int)),
                    ty,
                    category,
                },
            )
        }
    }
}

proof fn lemma_pow16_bound(k: nat)
    requires
        k <= 8,
    ensures
        1 <= pow16(k) <= 4294967296,
        k < 8 ==> 16 * pow16(k) <= 4294967296,
    decreases k,
{
    reveal_with_fuel(pow16, 9);
    if k > 0 {
        lemma_pow16_bound((k - 1) as nat);
    }
}

fn hex_digit(c: char) -> (r: Option<u32>)
    ensures
        r is Some <==> is_hex_digit(c),
        r is Some ==> r->0 == hex_digit_value(c) && r->0 < 16,
{
    let n = c as u32;
    if 48 <= n && n <= 57 {
        Some(n - 48)
    } else if 97 <= n && n <= 102 {
        Some(n - 87)
    } else if 65 <= n && n <= 70 {
        Some(n - 55)
    } else {
        None
    }
}

/// The identifier written by the chars of `v` between `lo` and `hi`, if they
/// are one to eight hexadecimal digits.
fn parse_id(v: &Vec<char>, lo: usize, hi: usize) -> (r: Option<u32>)
    requires
        lo <= hi <= v@.len(),
    ensures
        r is Some <==> valid_id(v@.subrange(lo as int, hi as int)),
        r is Some ==> r->0 == hex_value(v@.subrange(lo as int, hi as int)),
{
    let ghost s = v@.subrange(lo as int, hi as int);
    if hi - lo == 0 || hi - lo > 8 {
        return None;
    }
    let mut val: u64 = 0;
    let mut i: usize = lo;
    while i < hi
        invariant
            lo <= i <= hi <= v@.len(),
            hi - lo <= 8,
            s == v@.subrange(lo as int, hi as int),
            val == hex_value(v@.subrange(lo as int, i as int)),
            val < pow16((i - lo) as nat),
            forall|k: int| lo <= k < i ==> is_hex_digit(#[trigger] v@[k]),
        decreases hi - i,
    {
        proof {
            lemma_pow16_bound((i - lo) as nat);
        }
        match hex_digit(v[i]) {
            None => {
                assert(!is_hex_digit(s[i - lo]));
                return None;
            },
            Some(d) => {
                assert(v@.subrange(lo as int, i + 1).drop_last() =~= v@.subrange(lo as int, i as int));
                assert(pow16((i + 1 - lo) as nat) == 16 * pow16((i - lo) as nat));
                val = val * 16 + d as u64;
                i = i + 1;
            },
        }
    }
    proof {
        lemma_pow16_bound((hi - lo) as nat);
        assert forall|k: int| 0 <= k < s.len() implies is_hex_digit(#[trigger] s[k]) by {
            assert(s[k] == v@[lo + k]);
        }
    }
    Some(val as u32)
}

/// Parses the statement held by the chars of `v` between `lo` and `hi`.
pub(crate) fn parse_range(v: &Vec<char>, lo: usize, hi: usize, category: Category) -> (r: Result<
    Definition,
    ParseError,
>)
    requires
        lo <= hi <= v@.len(),
    ensures
        match parse_spec(v@.subrange(lo as int, hi as int), category) {
            Ok(d) => r matches Ok(def) && def@ == d,
            Err(e) => r == Err::<Definition, ParseError>(e),
        },
{
    let ghost t = v@.subrange(lo as int, hi as int);
    let eq = find_char(v, lo, hi, '=');
    if eq >= hi {
        return Err(ParseError::MissingType);
    }
    assert(t.subrange(0, eq - lo) =~= v@.subrange(lo as int, eq as int));
    assert(t.subrange(eq - lo + 1, t.len() as int) =~= v@.subrange(eq + 1, hi as int));
    let (la, lb) = trim_range(v, lo, eq);
    let (ta, tb) = trim_range(v, eq + 1, hi);
    let ghost left = v@.subrange(la as int, lb as int);
    let sp = find_whitespace(v, la, lb);
    assert(left.subrange(0, sp - la) =~= v@.subrange(la as int, sp as int));
    assert(left.subrange(sp - la, left.len() as int) =~= v@.subrange(sp as int, lb as int));
    let hash = find_char(v, la, sp, '#');
    let ghost head = v@.subrange(la as int, sp as int);
    assert(head.subrange(0, hash - la) =~= v@.subrange(la as int, hash as int));
    if ta == tb {
        return Err(ParseError::MissingType);
    }
    if hash == la {
        return Err(ParseError::MissingName);
    }
    if hash >= sp {
        return Err(ParseError::MissingId);
    }
    assert(head.subrange(hash - la + 1, head.len() as int) =~= v@.subrange(hash + 1, sp as int));
    let id = match parse_id(v, hash + 1, sp) {
        Some(id) => id,
        None => return Err(ParseError::InvalidId),
    };
    let (pa, pb) = trim_range(v, sp, lb);
    Ok(
        Definition {
            name: string_of(v, la, hash),
            id,
            params: string_of(v, pa, pb),
            ty: string_of(v, ta, tb),
            category,
        },
    )
}

impl Definition {
    /// Parses one statement of a schema, without its `;`, tagging the
    /// definition with `category`.
    pub fn parse(text: &str, category: Category) -> (r: Result<Definition, ParseError>)
        ensures
            match parse_spec(text@, category) {
                Ok(d) => r matches Ok(def) && def@ == d,
                Err(e) => r == Err::<Definition, ParseError>(e),
            },
    {
        let v = chars_of(text);
        assert(v@.subrange(0, v@.len() as int) =~= v@);
        parse_range(&v, 0, v.len(), category)
    }
}

} // verus!
