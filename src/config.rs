use vstd::prelude::*;
use vstd::string::*;
use crate::exclude::views_of;
use crate::mode::{mode_of_flags, mode_from_flags};
use crate::walk::Config;

verus! {

/// The pieces of `s` between single spaces, empty pieces included.
pub open spec fn split_spaces(s: Seq<char>) -> Seq<Seq<char>>
    decreases s.len(),
{
    if s.len() == 0 {
        seq![Seq::empty()]
    } else {
        let r = split_spaces(s.drop_last());
        if s.last() == ' ' {
            r.push(Seq::empty())
        } else {
            r.update(r.len() - 1, r.last().push(s.last()))
        }
    }
}

/// The value of a sequence of decimal digits.
pub open spec fn digits_value(d: Seq<char>) -> nat
    decreases d.len(),
{
    if d.len() == 0 {
        0
    } else {
        (digits_value(d.drop_last()) * 10 + (d.last() as int - '0' as int)) as nat
    }
}

/// An optional `+` followed by at least one decimal digit, whose value fits
/// in a `usize`.
pub open spec fn decimal_of(s: Seq<char>) -> Option<usize> {
    let d = if s.len() > 0 && s[0] == '+' {
        s.skip(1)
    } else {
        s
    };
    if d.len() > 0 && (forall|i: int| 0 <= i < d.len() ==> '0' <= #[trigger] d[i] <= '9')
        && digits_value(d) <= usize::MAX {
        Some(digits_value(d) as usize)
    } else {
        None
    }
}

/// Relies on `<usize as FromStr>::from_str`, which accepts an optional `+`
/// followed by decimal digits only, and fails on anything else or on a value
/// that does not fit.
#[verifier::external_body]
fn parse_usize(s: &str) -> (r: Option<usize>)
    ensures
        r == decimal_of(s@),
{
    s.parse::<usize>().ok()
}

/// Reads a depth budget written in decimal; `None` when it is not a number.
pub fn parse_depth(s: &str) -> (r: Option<usize>)
    ensures
        r == decimal_of(s@),
{
    parse_usize(s)
}

/// Splits a list of exclusion suffixes at each single space.
pub fn split_exclusions(s: &str) -> (r: Vec<String>)
    ensures
        views_of(r@) == split_spaces(s@),
{
    let n = s.unicode_len();
    let mut r: Vec<String> = Vec::new();
    let mut start: usize = 0;
    let mut i: usize = 0;
    proof {
        assert(views_of(r@) =~= Seq::<Seq<char>>::empty());
        assert(s@.subrange(0, 0) =~= Seq::<char>::empty());
        assert(views_of(r@).push(s@.subrange(0, 0)) =~= split_spaces(s@.subrange(0, 0)));
    }
    while i < n
        invariant
            n == s@.len(),
            start <= i <= n,
            views_of(r@).push(s@.subrange(start as int, i as int)) == split_spaces(
                s@.subrange(0, i as int),
            ),
        decreases n - i,
    {
        let ghost prev = split_spaces(s@.subrange(0, i as int));
        proof {
            assert(s@.subrange(0, i + 1).drop_last() =~= s@.subrange(0, i as int));
        }
        if s.get_char(i) == ' ' {
            let piece = String::from_str(s.substring_char(start, i));
            let ghost r0 = r@;
            r.push(piece);
            proof {
                assert(views_of(r@) =~= views_of(r0).push(piece@));
                assert(s@.subrange(i + 1, i + 1) =~= Seq::<char>::empty());
            }
            start = i + 1;
        } else {
            proof {
                assert(s@.subrange(start as int, i + 1) =~= s@.subrange(start as int, i as int).push(
                    s@[i as int],
                ));
            }
        }
        i += 1;
    }
    proof {
        assert(s@.subrange(0, n as int) =~= s@);
    }
    let last = String::from_str(s.substring_char(start, n));
    let ghost r0 = r@;
    r.push(last);
    proof {
        assert(views_of(r@) =~= views_of(r0).push(last@));
    }
    r
}

/// Builds a scan's configuration from the two partial-clean flags and the
/// optional space-separated list of exclusion suffixes.
pub fn build_config(doc: bool, release: bool, exclude_dirs: Option<&str>) -> (r: Config)
    ensures
        r.del_mode == mode_of_flags(doc, release),
        views_of(r.exclude_dirs@) == match exclude_dirs {
            Some(s) => split_spaces(s@),
            None => Seq::<Seq<char>>::empty(),
        },
{
    let exclusions = match exclude_dirs {
        Some(s) => split_exclusions(s),
        None => Vec::new(),
    };
    proof {
        if exclude_dirs is None {
            assert(views_of(exclusions@) =~= Seq::<Seq<char>>::empty());
        }
    }
    Config { exclude_dirs: exclusions, del_mode: mode_from_flags(doc, release) }
}

} // verus!
