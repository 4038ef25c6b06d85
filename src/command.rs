//! Turning a member's message into role intents: `+name` adds a role,
//! `-name` removes one, and `clear` or `reset` drops every configured role.

use vstd::prelude::*;

use crate::text::{alnum, chars_of, is_alphanumeric, lower_of, lowercase, push_char, same_text};

verus! {

/// Whether an intent adds or removes a role.
#[derive(Clone, Copy, Debug, PartialEq, Eq, Structural)]
pub enum RoleActionKind {
    Add,
    Remove,
}

/// What a [`RoleAction`] stands for: its position in the message, its kind
/// and the normalized role name.
pub struct ActionView {
    pub index: nat,
    pub kind: RoleActionKind,
    pub name: Seq<char>,
}

/// One add or remove intent read from a message.
#[derive(Debug)]
pub struct RoleAction {
    /// Position of the intent among those of its message.
    pub index: usize,
    pub kind: RoleActionKind,
    /// Role name, trimmed and lower-cased.
    pub role_name: String,
}

impl View for RoleAction {
    type V = ActionView;

    open spec fn view(&self) -> ActionView {
        ActionView { index: self.index as nat, kind: self.kind, name: self.role_name@ }
    }
}

impl Clone for RoleAction {
    fn clone(&self) -> (r: Self)
        ensures
            r == *self,
    {
        RoleAction { index: self.index, kind: self.kind, role_name: self.role_name.clone() }
    }
}

/// The views of a list of intents.
pub open spec fn actions_view(s: Seq<RoleAction>) -> Seq<ActionView> {
    s.map_values(|a: RoleAction| a@)
}

/// What a parsed message asks for.
#[derive(Debug)]
pub enum Command {
    /// Drop every role the catalog knows of.
    Reset,
    /// Apply these intents, in order; never empty.
    Actions(Vec<RoleAction>),
    /// Neither a reset nor any intent: the message gets the usage help.
    NoActions,
}

pub open spec fn is_sign(c: char) -> bool {
    c == '+' || c == '-'
}

pub open spec fn sign_kind(c: char) -> RoleActionKind {
    if c == '+' {
        RoleActionKind::Add
    } else {
        RoleActionKind::Remove
    }
}

/// Characters a role name may be made of: word characters and the space.
pub open spec fn is_name_char(c: char) -> bool {
    c == ' ' || c == '_' || alnum(c)
}

/// Length of the run of name characters that starts at `j`.
pub open spec fn run_len(s: Seq<char>, j: int) -> nat
    decreases s.len() - j,
{
    if 0 <= j < s.len() && is_name_char(s[j]) {
        1 + run_len(s, j + 1)
    } else {
        0
    }
}

/// The tokens from position `i` on: a sign immediately followed by the
/// longest run of name characters, scanning left to right.
pub open spec fn raw_tokens(s: Seq<char>, i: int) -> Seq<(RoleActionKind, Seq<char>)>
    decreases s.len() - i,
{
    if 0 <= i && i + 1 < s.len() {
        if is_sign(s[i]) && is_name_char(s[i + 1]) {
            proof {
                lemma_run_len_bound(s, i + 1);
            }
            let e = i + 1 + run_len(s, i + 1);
            seq![(sign_kind(s[i]), s.subrange(i + 1, e))] + raw_tokens(s, e)
        } else {
            raw_tokens(s, i + 1)
        }
    } else {
        seq![]
    }
}

/// A run of name characters ends within the message.
pub proof fn lemma_run_len_bound(s: Seq<char>, j: int)
    requires
        0 <= j <= s.len(),
    ensures
        j + run_len(s, j) <= s.len(),
    decreases s.len() - j,
{
    if j < s.len() {
        lemma_run_len_bound(s, j + 1);
    }
}

pub open spec fn strip_leading(s: Seq<char>) -> Seq<char>
    decreases s.len(),
{
    if s.len() > 0 && s[0] == ' ' {
        strip_leading(s.drop_first())
    } else {
        s
    }
}

pub open spec fn strip_trailing(s: Seq<char>) -> Seq<char>
    decreases s.len(),
{
    if s.len() > 0 && s.last() == ' ' {
        strip_trailing(s.drop_last())
    } else {
        s
    }
}

/// A run without its leading and trailing spaces.
pub open spec fn trim_spaces(s: Seq<char>) -> Seq<char> {
    strip_trailing(strip_leading(s))
}

/// The intents of a list of tokens, numbered in order.
pub open spec fn token_actions(toks: Seq<(RoleActionKind, Seq<char>)>) -> Seq<ActionView> {
    toks.map(
        |k: int, t: (RoleActionKind, Seq<char>)|
            ActionView { index: k as nat, kind: t.0, name: lower_of(trim_spaces(t.1)) },
    )
}

/// The intents a message holds.
pub open spec fn parsed_actions(s: Seq<char>) -> Seq<ActionView> {
    token_actions(raw_tokens(s, 0))
}

/// Whether a message asks for a reset: `clear` or `reset`, in any case.
pub open spec fn is_reset_text(s: Seq<char>) -> bool {
    lower_of(s) == "clear"@ || lower_of(s) == "reset"@
}

proof fn lemma_strip_leading(t: Seq<char>, k: int)
    requires
        0 <= k <= t.len(),
        forall|m: int| 0 <= m < k ==> t[m] == ' ',
        k == t.len() || t[k] != ' ',
    ensures
        strip_leading(t) == t.subrange(k, t.len() as int),
    decreases k,
{
    if k == 0 {
        assert(t.subrange(0, t.len() as int) =~= t);
    } else {
        lemma_strip_leading(t.drop_first(), k - 1);
        assert(t.drop_first().subrange(k - 1, t.len() - 1) =~= t.subrange(k, t.len() as int));
    }
}

proof fn lemma_strip_trailing(t: Seq<char>, k: int)
    requires
        0 <= k <= t.len(),
        forall|m: int| k <= m < t.len() ==> t[m] == ' ',
        k == 0 || t[k - 1] != ' ',
    ensures
        strip_trailing(t) == t.subrange(0, k),
    decreases t.len() - k,
{
    if k == t.len() {
        assert(t.subrange(0, k) =~= t);
    } else {
        lemma_strip_trailing(t.drop_last(), k);
        assert(t.drop_last().subrange(0, k) =~= t.subrange(0, k));
    }
}

fn is_name_character(c: char) -> (r: bool)
    ensures
        r == is_name_char(c),
{
    c == ' ' || c == '_' || is_alphanumeric(c)
}

/// Reads the intents of a message, in order of appearance.
pub fn parse_actions(text: &str) -> (r: Vec<RoleAction>)
    ensures
        actions_view(r@) == parsed_actions(text@),
{
    let cs = chars_of(text);
    let n = cs.len();
    let ghost s = text@;
    let ghost mut done: Seq<(RoleActionKind, Seq<char>)> = seq![];
    let mut out: Vec<RoleAction> = Vec::new();
    let mut i: usize = 0;
    while i < n
        invariant
            cs@ == s,
            n == cs.len(),
            i <= n,
            raw_tokens(s, 0) == done + raw_tokens(s, i as int),
            actions_view(out@) == token_actions(done),
        decreases n - i,
    {
        if i + 1 < n && (cs[i] == '+' || cs[i] == '-') && is_name_character(cs[i + 1]) {
            let kind = if cs[i] == '+' {
                RoleActionKind::Add
            } else {
                RoleActionKind::Remove
            };
            let start: usize = i + 1;
            let mut j: usize = start;
            while j < n && is_name_character(cs[j])
                invariant
                    cs@ == s,
                    n == cs.len(),
                    start <= j <= n,
                    run_len(s, start as int) == (j - start) + run_len(s, j as int),
                    forall|m: int| start <= m < j ==> is_name_char(s[m]),
                decreases n - j,
            {
                j = j + 1;
            }
            let ghost run = s.subrange(start as int, j as int);
            let mut lo: usize = start;
            while lo < j && cs[lo] == ' '
                invariant
                    cs@ == s,
                    n == cs.len(),
                    start <= lo <= j <= n,
                    forall|m: int| start <= m < lo ==> s[m] == ' ',
                decreases j - lo,
            {
                lo = lo + 1;
            }
            let mut hi: usize = j;
            while hi > lo && cs[hi - 1] == ' '
                invariant
                    cs@ == s,
                    n == cs.len(),
                    start <= lo <= hi <= j <= n,
                    forall|m: int| hi <= m < j ==> s[m] == ' ',
                decreases hi - lo,
            {
                hi = hi - 1;
            }
            proof {
                lemma_strip_leading(run, lo - start);
                let rest = s.subrange(lo as int, j as int);
                assert(run.subrange(lo - start, run.len() as int) =~= rest);
                lemma_strip_trailing(rest, hi - lo);
                assert(rest.subrange(0, hi - lo) =~= s.subrange(lo as int, hi as int));
            }
            let mut raw = String::new();
            let mut m: usize = lo;
            while m < hi
                invariant
                    cs@ == s,
                    n == cs.len(),
                    lo <= m <= hi <= n,
                    raw@ == s.subrange(lo as int, m as int),
                decreases hi - m,
            {
                push_char(&mut raw, cs[m]);
                m = m + 1;
                assert(raw@ =~= s.subrange(lo as int, m as int));
            }
            let role_name = lowercase(raw.as_str());
            let action = RoleAction { index: out.len(), kind, role_name };
            proof {
                let tok = (sign_kind(s[i as int]), run);
                assert(raw_tokens(s, i as int) == seq![tok] + raw_tokens(s, j as int));
                assert(done.push(tok) + raw_tokens(s, j as int) =~= done + (seq![tok] + raw_tokens(s, j as int)));
                assert(token_actions(done.push(tok)) =~= token_actions(done).push(action@));
                done = done.push(tok);
            }
            out.push(action);
            assert(actions_view(out@) =~= token_actions(done));
            i = j;
        } else {
            i = i + 1;
        }
    }
    assert(raw_tokens(s, i as int) == Seq::<(RoleActionKind, Seq<char>)>::empty());
    assert(done + raw_tokens(s, i as int) =~= done);
    out
}

/// Reads a whole message: a reset, a list of intents, or nothing usable.
pub fn parse_command(text: &str) -> (r: Command)
    ensures
        is_reset_text(text@) ==> r is Reset,
        !is_reset_text(text@) && parsed_actions(text@).len() == 0 ==> r is NoActions,
        !is_reset_text(text@) && parsed_actions(text@).len() > 0 ==> (r matches Command::Actions(v)
            && actions_view(v@) == parsed_actions(text@)),
{
    let lowered = lowercase(text);
    if same_text(lowered.as_str(), "clear") || same_text(lowered.as_str(), "reset") {
        return Command::Reset;
    }
    let actions = parse_actions(text);
    if actions.len() == 0 {
        Command::NoActions
    } else {
        Command::Actions(actions)
    }
}

} // verus!
