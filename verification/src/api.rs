//! Checks of the script-facing world API.

use vstd::prelude::*;
use vstd::string::StringSliceAdditionalSpecFns;
use vstd::utf8::{decode_utf8, encode_utf8};

use crate::commands::Command;
use crate::script_store::string_views;
use crate::text::{debug_rendering, debug_string};

verus! {

/// The `act` kinds a script may request: `"plant"` and `"drain"`.
pub open spec fn is_act_kind_text(kind: Seq<char>) -> bool {
    kind == "plant"@ || kind == "drain"@
}

/// Byte-wise equality of two string slices.
pub fn str_eq(a: &str, b: &str) -> (eq: bool)
    ensures
        eq == (a@ == b@),
{
    broadcast use vstd::utf8::encode_utf8_decode_utf8;
    let x = a.as_bytes();
    let y = b.as_bytes();
    assert(x@ == encode_utf8(a@));
    assert(y@ == encode_utf8(b@));
    if x.len() != y.len() {
        assert(a@ != b@) by {
            if a@ == b@ {
                assert(encode_utf8(a@) == encode_utf8(b@));
            }
        }
        return false;
    }
    let mut i: usize = 0;
    while i < x.len()
        invariant
            x@.len() == y@.len(),
            x@ == encode_utf8(a@),
            y@ == encode_utf8(b@),
            i <= x@.len(),
            forall|j: int| 0 <= j < i ==> x@[j] == y@[j],
        decreases x@.len() - i,
    {
        if x[i] != y[i] {
            assert(x@[i as int] != y@[i as int]);
            assert(x@ != y@);
            assert(a@ != b@) by {
                if a@ == b@ {
                    assert(encode_utf8(a@) == encode_utf8(b@));
                }
            }
            return false;
        }
        i = i + 1;
    }
    assert(x@ =~= y@);
    assert(decode_utf8(encode_utf8(a@)) == a@);
    assert(decode_utf8(encode_utf8(b@)) == b@);
    true
}

/// Whether `act` accepts this kind (it must be one of `"plant"`, `"drain"`).
pub fn is_act_kind(kind: &str) -> (ok: bool)
    ensures
        ok == is_act_kind_text(kind@),
{
    proof {
        reveal_strlit("plant");
        reveal_strlit("drain");
    }
    str_eq(kind, "plant") || str_eq(kind, "drain")
}

/// The error text of `act` for a kind it does not know.
pub open spec fn unknown_act_text(kind: Seq<char>) -> Seq<char> {
    "act: unknown kind "@ + debug_rendering(kind) + " (allowed: [\"plant\", \"drain\"])"@
}

/// The error text of `act` around the quoted kind.
pub fn unknown_act_message(quoted: &str) -> (text: String)
    ensures
        text@ == "act: unknown kind "@ + quoted@ + " (allowed: [\"plant\", \"drain\"])"@,
{
    let mut text = String::from_str("act: unknown kind ");
    text.append(quoted);
    text.append(" (allowed: [\"plant\", \"drain\"])");
    text
}

/// What `act(kind, params)` queues: the placeholder command for a known
/// kind (the parameters are not read yet), or the error text.
pub fn act_command(kind: &str) -> (r: Result<Command, String>)
    ensures
        is_act_kind_text(kind@) ==> r == Ok::<Command, String>(Command::Noop),
        !is_act_kind_text(kind@) ==> (r matches Err(text) && text@ == unknown_act_text(kind@)),
{
    if is_act_kind(kind) {
        Ok(Command::Noop)
    } else {
        let shown = debug_string(kind);
        Err(unknown_act_message(shown.as_str()))
    }
}

/// Rendered `print` arguments joined with tabs, the way Lua's own `print`
/// separates them.
pub open spec fn tab_joined(parts: Seq<Seq<char>>) -> Seq<char>
    decreases parts.len(),
{
    if parts.len() == 0 {
        Seq::empty()
    } else if parts.len() == 1 {
        parts[0]
    } else {
        tab_joined(parts.drop_last()) + "\t"@ + parts.last()
    }
}

/// Total number of characters in a list of texts.
pub open spec fn total_len(parts: Seq<Seq<char>>) -> nat
    decreases parts.len(),
{
    if parts.len() == 0 {
        0
    } else {
        total_len(parts.drop_last()) + parts.last().len()
    }
}

/// Joining puts exactly one tab between neighbouring arguments, empty ones
/// included: one argument is itself, adding an argument appends a tab and
/// that argument, and the joined text of `n >= 1` arguments has their total
/// length plus `n - 1` characters.
pub proof fn lemma_tab_joined_separates_every_argument(parts: Seq<Seq<char>>, x: Seq<char>)
    ensures
        tab_joined(seq![x]) == x,
        parts.len() >= 1 ==> tab_joined(parts.push(x)) == tab_joined(parts) + seq!['\t'] + x,
        parts.len() >= 1 ==> tab_joined(parts).len() == total_len(parts) + parts.len() - 1,
    decreases parts.len(),
{
    reveal_strlit("\t");
    assert(seq![x].len() == 1);
    if parts.len() >= 1 {
        let p = parts.push(x);
        assert(p.drop_last() =~= parts);
        assert(p.last() == x);
        assert("\t"@ =~= seq!['\t']);
        if parts.len() == 1 {
            assert(parts =~= seq![parts[0]]);
            assert(parts.drop_last() =~= Seq::<Seq<char>>::empty());
        } else {
            lemma_tab_joined_separates_every_argument(parts.drop_last(), parts.last());
            assert(parts.drop_last().push(parts.last()) =~= parts);
        }
    }
}

/// Join rendered `print` arguments with tabs.
pub fn join_print_args(parts: &Vec<String>) -> (text: String)
    ensures
        text@ == tab_joined(string_views(parts@)),
        parts@.len() >= 1 ==> text@.len() == total_len(string_views(parts@)) + parts@.len() - 1,
{
    let mut text = String::new();
    let mut k: usize = 0;
    while k < parts.len()
        invariant
            k <= parts@.len(),
            text@ == tab_joined(string_views(parts@.take(k as int))),
        decreases parts@.len() - k,
    {
        proof {
            let t = parts@.take(k + 1);
            assert(t =~= parts@.take(k as int).push(parts@[k as int]));
            assert(string_views(t).drop_last() =~= string_views(parts@.take(k as int)));
            assert(string_views(t).last() == parts@[k as int]@);
            if k == 0 {
                assert(string_views(t) =~= seq![parts@[0]@]);
                assert(string_views(parts@.take(0)) =~= Seq::<Seq<char>>::empty());
            }
        }
        if k > 0 {
            text.append("\t");
        }
        text.append(parts[k].as_str());
        proof {
            if k == 0 {
                assert(text@ =~= parts@[0]@);
            }
        }
        k = k + 1;
    }
    proof {
        assert(parts@.take(parts@.len() as int) =~= parts@);
        lemma_tab_joined_separates_every_argument(string_views(parts@), Seq::empty());
    }
    text
}

} // verus!
