//! The file name of a slash-separated path, as a path's final component.
use vstd::prelude::*;
use vstd::string::*;

verus! {

/// Index just after the last `/` of `s`, or 0 when `s` holds none.
pub open spec fn segment_start(s: Seq<char>) -> int
    decreases s.len(),
{
    if s.len() == 0 {
        0
    } else if s.last() == '/' {
        s.len() as int
    } else {
        segment_start(s.drop_last())
    }
}

pub proof fn lemma_segment_start_bounds(s: Seq<char>)
    ensures
        0 <= segment_start(s) <= s.len(),
        segment_start(s) > 0 ==> s[segment_start(s) - 1] == '/',
        forall|j: int| segment_start(s) <= j < s.len() ==> s[j] != '/',
    decreases s.len(),
{
    if s.len() > 0 && s.last() != '/' {
        lemma_segment_start_bounds(s.drop_last());
        assert forall|j: int| segment_start(s) <= j < s.len() implies s[j] != '/' by {
            if j < s.len() - 1 {
                assert(s.drop_last()[j] == s[j]);
            }
        }
    }
}

/// The segment `"."`.
pub open spec fn dot() -> Seq<char> {
    seq!['.']
}

/// The segment `".."`.
pub open spec fn dot_dot() -> Seq<char> {
    seq!['.', '.']
}

/// The last segment of `s` between slashes that is neither empty nor `"."`.
pub open spec fn final_component(s: Seq<char>) -> Option<Seq<char>>
    decreases s.len(),
{
    let st = segment_start(s);
    let seg = s.subrange(st, s.len() as int);
    if seg.len() > 0 && seg != dot() {
        Some(seg)
    } else if st <= 0 {
        None
    } else {
        proof {
            lemma_segment_start_bounds(s);
        }
        final_component(s.subrange(0, st - 1))
    }
}

/// The file name of a path: its final component, unless that is `".."`.
/// `"/etc/x/03-a.sh"` names `"03-a.sh"`, `"a/b/"` and `"a/b/."` name `"b"`,
/// and `"/"`, `"."`, `"a/.."` and `""` name nothing.
pub open spec fn file_name(s: Seq<char>) -> Option<Seq<char>> {
    match final_component(s) {
        Some(c) => if c == dot_dot() {
            None
        } else {
            Some(c)
        },
        None => None,
    }
}

proof fn lemma_segment_start_of_prefix(s: Seq<char>, start: int, end: int)
    requires
        0 <= start <= end <= s.len(),
        start == 0 || s[start - 1] == '/',
        forall|j: int| start <= j < end ==> s[j] != '/',
    ensures
        segment_start(s.subrange(0, end)) == start,
    decreases end - start,
{
    let p = s.subrange(0, end);
    if end > start {
        assert(p.drop_last() =~= s.subrange(0, end - 1));
        lemma_segment_start_of_prefix(s, start, end - 1);
    } else if start > 0 {
        assert(p.last() == s[start - 1]);
    }
}

/// Computes `file_name(path@)`.
pub fn file_name_of(path: &str) -> (r: Option<String>)
    ensures
        match r {
            Some(n) => file_name(path@) == Some(n@),
            None => file_name(path@) is None,
        },
{
    let ghost s = path@;
    let mut end: usize = path.unicode_len();
    assert(s.subrange(0, end as int) =~= s);
    loop
        invariant
            end <= s.len(),
            s == path@,
            final_component(s) == final_component(s.subrange(0, end as int)),
        decreases end,
    {
        let mut start: usize = end;
        while start > 0 && path.get_char(start - 1) != '/'
            invariant
                start <= end <= s.len(),
                s == path@,
                forall|j: int| start <= j < end ==> s[j] != '/',
            decreases start,
        {
            start = start - 1;
        }
        let ghost p = s.subrange(0, end as int);
        proof {
            lemma_segment_start_of_prefix(s, start as int, end as int);
            assert(p.subrange(start as int, end as int) =~= s.subrange(start as int, end as int));
        }
        let seg = path.substring_char(start, end);
        let is_dot = seg.unicode_len() == 1 && seg.get_char(0) == '.';
        proof {
            if seg@.len() == 1 {
                if seg@[0] == '.' {
                    assert(seg@ =~= dot());
                }
            }
        }
        if end > start && !is_dot {
            let owned = seg.to_owned();
            let is_dot_dot = seg.unicode_len() == 2 && seg.get_char(0) == '.' && seg.get_char(1)
                == '.';
            proof {
                if seg@.len() == 2 {
                    if seg@[0] == '.' && seg@[1] == '.' {
                        assert(seg@ =~= dot_dot());
                    }
                }
            }
            if is_dot_dot {
                return None;
            }
            return Some(owned);
        }
        if start == 0 {
            return None;
        }
        proof {
            assert(p.subrange(0, start - 1) =~= s.subrange(0, start - 1));
        }
        end = start - 1;
    }
}

proof fn lemma_final_component_is_segment(s: Seq<char>)
    ensures
        final_component(s) matches Some(c) ==> c.len() > 0 && c != dot() && forall|j: int|
            0 <= j < c.len() ==> c[j] != '/',
    decreases s.len(),
{
    lemma_segment_start_bounds(s);
    let st = segment_start(s);
    let seg = s.subrange(st, s.len() as int);
    if seg.len() > 0 && seg != dot() {
        assert forall|j: int| 0 <= j < seg.len() implies seg[j] != '/' by {
            assert(seg[j] == s[st + j]);
        }
    } else if st > 0 {
        lemma_final_component_is_segment(s.subrange(0, st - 1));
    }
}

/// A file name is one non-empty segment of its path: it holds no `/` and
/// is neither `"."` nor `".."`.
pub proof fn law_file_name_is_a_segment(p: Seq<char>)
    ensures
        file_name(p) matches Some(n) ==> {
            &&& n.len() > 0
            &&& n != dot()
            &&& n != dot_dot()
            &&& forall|j: int| 0 <= j < n.len() ==> n[j] != '/'
        },
{
    lemma_final_component_is_segment(p);
}

} // verus!
