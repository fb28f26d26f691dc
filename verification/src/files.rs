//! The name a received attachment is saved under. A sender chooses the
//! file name it announces, so only its final path component is kept, the
//! way a Unix path names its file; where it names none, a fixed name is
//! used. The saved name begins with the transfer's identifier.
use vstd::prelude::*;
use vstd::string::*;
use crate::digest::{hex_encode, hex_lower};

verus! {

/// The position just after the last `/` of the text, or 0 where it has
/// none.
pub open spec fn tail_start(s: Seq<char>) -> nat
    decreases s.len(),
{
    if s.len() == 0 {
        0
    } else if s.last() == '/' {
        s.len()
    } else {
        tail_start(s.drop_last())
    }
}

pub proof fn lemma_tail_start_bound(s: Seq<char>)
    ensures
        tail_start(s) <= s.len(),
    decreases s.len(),
{
    if s.len() > 0 && s.last() != '/' {
        lemma_tail_start_bound(s.drop_last());
    }
}

/// The final component of a path: separators repeat and trail freely, and
/// `.` components stand for nothing. `None` where no component is left.
pub open spec fn final_component(s: Seq<char>) -> Option<Seq<char>>
    decreases s.len(),
{
    if s.len() == 0 {
        None
    } else if s.last() == '/' {
        final_component(s.drop_last())
    } else {
        let k = tail_start(s);
        proof {
            lemma_tail_start_bound(s.drop_last());
        }
        if s.skip(k as int) == seq!['.'] {
            final_component(s.take(k as int))
        } else {
            Some(s.skip(k as int))
        }
    }
}

/// The name a file name announced by a sender is saved under: its final
/// component, unless there is none or it is `..`, where it is
/// `attachment.bin`.
pub open spec fn safe_file_name(s: Seq<char>) -> Seq<char> {
    match final_component(s) {
        Some(c) => if c == seq!['.', '.'] {
            "attachment.bin"@
        } else {
            c
        },
        None => "attachment.bin"@,
    }
}

proof fn lemma_tail_start_at(t: Seq<char>, k: int)
    requires
        0 <= k <= t.len(),
        k == 0 || t[k - 1] == '/',
        forall|j: int| k <= j < t.len() ==> t[j] != '/',
    ensures
        tail_start(t) == k,
    decreases t.len(),
{
    if t.len() > k {
        lemma_tail_start_at(t.drop_last(), k);
    } else if k > 0 {
        assert(t.last() == '/');
    }
}

proof fn lemma_final_component_plain(s: Seq<char>)
    ensures
        final_component(s) matches Some(c) ==> {
            &&& c.len() > 0
            &&& c != seq!['.']
            &&& forall|j: int| 0 <= j < c.len() ==> c[j] != '/'
        },
    decreases s.len(),
{
    if s.len() == 0 {
    } else if s.last() == '/' {
        lemma_final_component_plain(s.drop_last());
    } else {
        lemma_tail_start_bound(s.drop_last());
        let k = tail_start(s) as int;
        if s.skip(k) == seq!['.'] {
            lemma_final_component_plain(s.take(k));
        } else {
            lemma_tail_components(s);
            assert(s.skip(k).len() > 0);
        }
    }
}

proof fn lemma_tail_components(s: Seq<char>)
    ensures
        forall|j: int| tail_start(s) <= j < s.len() ==> s[j] != '/',
    decreases s.len(),
{
    if s.len() > 0 && s.last() != '/' {
        lemma_tail_components(s.drop_last());
        assert forall|j: int| tail_start(s) <= j < s.len() implies s[j] != '/' by {
            if j < s.len() - 1 {
                assert(s[j] == s.drop_last()[j]);
            }
        }
    }
}

/// Where the final component of `s` lies, or `None` where it has none.
fn final_component_bounds(s: &str) -> (r: Option<(usize, usize)>)
    ensures
        r matches Some((a, b)) ==> a <= b <= s@.len() && final_component(s@) == Some(s@.subrange(a as int, b as int)),
        r is None ==> final_component(s@) is None,
{
    let n = s.unicode_len();
    let mut end: usize = n;
    assert(s@.take(n as int) =~= s@);
    loop
        invariant
            n == s@.len(),
            end <= n,
            final_component(s@) == final_component(s@.take(end as int)),
        decreases end,
    {
        let ghost top = end;
        while end > 0 && s.get_char(end - 1) == '/'
            invariant
                n == s@.len(),
                end <= top <= n,
                final_component(s@) == final_component(s@.take(end as int)),
            decreases end,
        {
            assert(s@.take(end as int).drop_last() =~= s@.take(end - 1));
            end = end - 1;
        }
        if end == 0 {
            assert(s@.take(0) =~= Seq::<char>::empty());
            return None;
        }
        let mut start: usize = end;
        while start > 0 && s.get_char(start - 1) != '/'
            invariant
                n == s@.len(),
                start <= end <= n,
                forall|j: int| start <= j < end ==> s@[j] != '/',
            decreases start,
        {
            start = start - 1;
        }
        let ghost t = s@.take(end as int);
        proof {
            assert(t.last() != '/');
            lemma_tail_start_at(t, start as int);
            assert(t.skip(start as int) =~= s@.subrange(start as int, end as int));
            assert(t.take(start as int) =~= s@.take(start as int));
        }
        if end - start == 1 && s.get_char(start) == '.' {
            assert(t.skip(start as int) =~= seq!['.']);
            end = start;
        } else {
            proof {
                if t.skip(start as int) == seq!['.'] {
                    assert(t.skip(start as int)[0] == s@[start as int]);
                }
            }
            return Some((start, end));
        }
    }
}

/// The name a file name announced by a sender is saved under.
pub fn safe_name(file_name: &str) -> (r: String)
    ensures
        r@ == safe_file_name(file_name@),
{
    proof {
        reveal_strlit("attachment.bin");
    }
    match final_component_bounds(file_name) {
        None => String::from_str("attachment.bin"),
        Some((a, b)) => {
            let piece = file_name.substring_char(a, b);
            if b - a == 2 && piece.get_char(0) == '.' && piece.get_char(1) == '.' {
                assert(piece@ =~= seq!['.', '.']);
                String::from_str("attachment.bin")
            } else {
                proof {
                    if piece@ == seq!['.', '.'] {
                        assert(piece@[0] == '.' && piece@[1] == '.');
                    }
                }
                String::from_str(piece)
            }
        },
    }
}

/// A saved attachment name never leaves the directory it is saved in: it
/// is not empty, holds no `/`, and is neither `.` nor `..`.
pub proof fn law_saved_names_stay_in_place(s: Seq<char>)
    ensures
        safe_file_name(s).len() > 0,
        forall|j: int| 0 <= j < safe_file_name(s).len() ==> safe_file_name(s)[j] != '/',
        safe_file_name(s) != seq!['.'],
        safe_file_name(s) != seq!['.', '.'],
{
    reveal_strlit("attachment.bin");
    lemma_final_component_plain(s);
    let d = "attachment.bin"@;
    assert(d.len() == 14);
    assert(d[0] == 'a');
    assert(d != seq!['.']);
    assert(d != seq!['.', '.']);
}

proof fn lemma_hex_prefix(b: Seq<u8>, k: nat)
    requires
        k <= b.len(),
    ensures
        hex_lower(b).take(2 * k as int) == hex_lower(b.take(k as int)),
        hex_lower(b).len() == 2 * b.len(),
    decreases b.len(),
{
    if b.len() > 0 {
        lemma_hex_prefix(b.drop_first(), if k > 0 { (k - 1) as nat } else { 0 });
        if k > 0 {
            assert(b.take(k as int).drop_first() =~= b.drop_first().take(k - 1));
        } else {
            assert(b.take(0) =~= Seq::<u8>::empty());
        }
    } else {
        assert(b.take(k as int) =~= b);
    }
}

/// The name a received attachment is saved under: the first twelve
/// hexadecimal digits of the transfer's identifier, a hyphen, and the safe
/// form of the announced file name.
pub open spec fn attachment_name(transfer_id: Seq<u8>, file_name: Seq<char>) -> Seq<char> {
    hex_lower(transfer_id).take(12) + seq!['-'] + safe_file_name(file_name)
}

/// The name a received attachment is saved under.
pub fn attachment_file_name(transfer_id: &[u8; 32], file_name: &str) -> (r: String)
    ensures
        r@ == attachment_name(transfer_id@, file_name@),
{
    let mut prefix: Vec<u8> = Vec::new();
    let mut i: usize = 0;
    while i < 6
        invariant
            i <= 6,
            transfer_id@.len() == 32,
            prefix@ == transfer_id@.take(i as int),
        decreases 6 - i,
    {
        prefix.push(transfer_id[i]);
        assert(transfer_id@.take(i + 1) =~= transfer_id@.take(i as int).push(transfer_id@[i as int]));
        i = i + 1;
    }
    proof {
        lemma_hex_prefix(transfer_id@, 6);
    }
    let mut out = hex_encode(prefix.as_slice());
    out.append("-");
    let name = safe_name(file_name);
    out.append(name.as_str());
    proof {
        reveal_strlit("-");
    }
    assert(out@ =~= attachment_name(transfer_id@, file_name@));
    out
}

} // verus!
