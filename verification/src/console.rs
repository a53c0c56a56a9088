//! The text the launcher window shows: instance directory names, clock
//! stamps, the bounded console log, and the queue of mods to install.

use vstd::prelude::*;
use crate::mods::{ModReference, Provider, ref_views, text_views};
use crate::text::{decimal, decimal_string, digit_char, trim_text, trimmed};

verus! {

/// The most lines the console keeps; older ones are dropped.
pub open spec fn console_capacity() -> nat {
    500
}

/// An ASCII letter or digit.
pub open spec fn is_ascii_alphanumeric(c: char) -> bool {
    ('a' <= c && c <= 'z') || ('A' <= c && c <= 'Z') || ('0' <= c && c <= '9')
}

/// The character a name's character becomes in its directory name: ASCII
/// letters and digits lower-cased, anything else `-`.
pub open spec fn slug_char(c: char) -> char {
    if 'A' <= c && c <= 'Z' {
        ((c as u32) + 32) as char
    } else if is_ascii_alphanumeric(c) {
        c
    } else {
        '-'
    }
}

/// The directory name for an instance called `name`: one character per
/// character of the name, as `slug_char` maps it.
pub fn slug(name: &str) -> (res: String)
    ensures
        res@ == name@.map_values(|c: char| slug_char(c)),
{
    let n = name.unicode_len();
    let mut s = String::new();
    let mut i: usize = 0;
    while i < n
        invariant
            n == name@.len(),
            i <= n,
            s@ == name@.take(i as int).map_values(|c: char| slug_char(c)),
        decreases n - i,
    {
        let c = name.get_char(i);
        let out = if 'A' <= c && c <= 'Z' {
            let b: u8 = c as u8;
            (b + 32u8) as char
        } else if ('a' <= c && c <= 'z') || ('0' <= c && c <= '9') {
            c
        } else {
            '-'
        };
        assert(out == slug_char(c));
        s.push(out);
        assert(s@ =~= name@.take(i + 1).map_values(|c: char| slug_char(c)));
        i = i + 1;
    }
    assert(name@.take(n as int) =~= name@);
    s
}

/// `n` (below 100) as two decimal digits.
pub open spec fn two_digits(n: nat) -> Seq<char> {
    seq![digit_char(n / 10), digit_char(n % 10)]
}

/// `HH:MM:SS` (UTC) for `secs` seconds since the Unix epoch.
pub open spec fn clock(secs: nat) -> Seq<char> {
    two_digits((secs / 3600) % 24) + seq![':'] + two_digits((secs / 60) % 60) + seq![':']
        + two_digits(secs % 60)
}

fn push_two_digits(s: &mut String, n: u64)
    requires
        n < 100,
    ensures
        final(s)@ == old(s)@ + two_digits(n as nat),
{
    let hi: u8 = (n / 10) as u8;
    let lo: u8 = (n % 10) as u8;
    s.push((hi + 48u8) as char);
    s.push((lo + 48u8) as char);
    assert(final(s)@ =~= old(s)@ + two_digits(n as nat)) by {
        assert(((hi + 48u8) as char) == digit_char((n / 10) as nat));
        assert(((lo + 48u8) as char) == digit_char((n % 10) as nat));
    }
}

/// The console's clock stamp for `secs` seconds since the Unix epoch.
pub fn clock_text(secs: u64) -> (res: String)
    ensures
        res@ == clock(secs as nat),
{
    let mut s = String::new();
    push_two_digits(&mut s, (secs / 3600) % 24);
    s.push(':');
    push_two_digits(&mut s, (secs / 60) % 60);
    s.push(':');
    push_two_digits(&mut s, secs % 60);
    assert(s@ =~= clock(secs as nat));
    s
}

/// The last `console_capacity()` of `lines` (all of them when there are
/// fewer).
pub open spec fn newest_lines(lines: Seq<Seq<char>>) -> Seq<Seq<char>> {
    if lines.len() > console_capacity() {
        lines.skip(lines.len() - console_capacity())
    } else {
        lines
    }
}

/// The texts of `lines`.
pub open spec fn line_views(lines: Seq<String>) -> Seq<Seq<char>> {
    lines.map_values(|l: String| l@)
}

/// Appends `[{stamp}] {message}` to the console and drops the oldest lines
/// beyond `console_capacity()`.
pub fn append_log(console: &mut Vec<String>, stamp: &str, message: &str)
    ensures
        line_views(final(console)@) == newest_lines(
            line_views(old(console)@).push("["@ + stamp@ + "] "@ + message@),
        ),
{
    let mut line = "[".to_owned();
    line.append(stamp);
    line.append("] ");
    line.append(message);
    let ghost all = line_views(old(console)@).push(line@);
    console.push(line);
    assert(line_views(console@) =~= all);
    let len = console.len();
    if len > 500 {
        let kept = console.split_off(len - 500);
        *console = kept;
        assert(line_views(console@) =~= newest_lines(all));
    }
}

/// Adds the mod named by `input` (white space around it trimmed) from
/// `provider` to the install queue, unless the trimmed id is empty or the
/// queue already holds it. Returns whether it was added.
pub fn queue_mod(queue: &mut Vec<ModReference>, provider: Provider, input: &str) -> (added: bool)
    ensures
        added <==> (trimmed(input@).len() > 0 && !ref_views(old(queue)@).contains(
            (provider, trimmed(input@)),
        )),
        added ==> ref_views(final(queue)@) == ref_views(old(queue)@).push(
            (provider, trimmed(input@)),
        ),
        !added ==> final(queue)@ == old(queue)@,
        ref_views(old(queue)@).no_duplicates() ==> ref_views(final(queue)@).no_duplicates(),
{
    let id = trim_text(input);
    if id.as_str().unicode_len() == 0 {
        return false;
    }
    let reference = ModReference { provider, project_id: id };
    let mut i: usize = 0;
    while i < queue.len()
        invariant
            i <= queue@.len(),
            reference@ == (provider, trimmed(input@)),
            forall|j: int| 0 <= j < i ==> (#[trigger] queue@[j])@ != reference@,
        decreases queue@.len() - i,
    {
        if queue[i] == reference {
            assert(ref_views(queue@)[i as int] == reference@);
            return false;
        }
        i = i + 1;
    }
    assert forall|j: int| 0 <= j < ref_views(queue@).len() implies #[trigger] ref_views(queue@)[j]
        != reference@ by {
        assert(ref_views(queue@)[j] == queue@[j]@);
    }
    proof {
        crate::mods::lemma_ref_views_push(queue@, reference);
    }
    let ghost before = ref_views(queue@);
    queue.push(reference);
    assert(ref_views(queue@) == before.push((provider, trimmed(input@))));
    assert(!before.contains((provider, trimmed(input@))));
    true
}

/// Whether the Install button is enabled: something is queued and no
/// install is running.
pub fn can_install(queue: &Vec<ModReference>, installing: bool) -> (res: bool)
    ensures
        res == (queue@.len() > 0 && !installing),
{
    queue.len() > 0 && !installing
}

/// The console after logging `messages` in turn, each stamped `stamp`, as
/// `append_log` logs one.
pub open spec fn logged(console: Seq<Seq<char>>, stamp: Seq<char>, messages: Seq<Seq<char>>) -> Seq<
    Seq<char>,
>
    decreases messages.len(),
{
    if messages.len() == 0 {
        console
    } else {
        newest_lines(
            logged(console, stamp, messages.drop_last()).push(
                "["@ + stamp + "] "@ + messages.last(),
            ),
        )
    }
}

/// What a successful install logs: the count, then each file name indented.
pub open spec fn installed_messages(names: Seq<Seq<char>>) -> Seq<Seq<char>> {
    seq!["Installed "@ + decimal(names.len()) + " file(s):"@] + names.map_values(
        |n: Seq<char>| "  "@ + n,
    )
}

/// What an install's outcome logs: the installed files, or the failure.
pub open spec fn outcome_messages(outcome: Result<Vec<String>, String>) -> Seq<Seq<char>> {
    match outcome {
        Ok(names) => installed_messages(text_views(names@)),
        Err(message) => seq!["Install failed: "@ + message@],
    }
}

/// Ends an install with its outcome (the installed file names, or the
/// failure's text): no install is running any more, the queue is cleared
/// when it succeeded and kept when it failed, and the outcome is logged.
pub fn install_finished(
    queue: &mut Vec<ModReference>,
    installing: &mut bool,
    console: &mut Vec<String>,
    stamp: &str,
    outcome: &Result<Vec<String>, String>,
)
    ensures
        !*final(installing),
        outcome is Ok ==> final(queue)@.len() == 0,
        outcome is Err ==> final(queue)@ == old(queue)@,
        line_views(final(console)@) == logged(
            line_views(old(console)@),
            stamp@,
            outcome_messages(*outcome),
        ),
{
    *installing = false;
    let mut messages: Vec<String> = Vec::new();
    match outcome {
        Ok(names) => {
            let mut first = "Installed ".to_owned();
            let count = decimal_string(names.len() as u64);
            first.append(count.as_str());
            first.append(" file(s):");
            messages.push(first);
            let mut i: usize = 0;
            while i < names.len()
                invariant
                    i <= names@.len(),
                    text_views(messages@) == seq!["Installed "@ + decimal(names@.len()) + " file(s):"@]
                        + text_views(names@).take(i as int).map_values(|n: Seq<char>| "  "@ + n),
                decreases names@.len() - i,
            {
                let mut line = "  ".to_owned();
                line.append(names[i].as_str());
                let ghost before = text_views(messages@);
                messages.push(line);
                assert(text_views(messages@) =~= before.push(line@));
                assert(text_views(names@).take(i + 1).map_values(|n: Seq<char>| "  "@ + n)
                    =~= text_views(names@).take(i as int).map_values(|n: Seq<char>| "  "@ + n).push(
                    "  "@ + names@[i as int]@,
                ));
                i = i + 1;
            }
            assert(text_views(names@).take(names@.len() as int) =~= text_views(names@));
            queue.clear();
        },
        Err(message) => {
            let mut line = "Install failed: ".to_owned();
            line.append(message.as_str());
            messages.push(line);
            assert(text_views(messages@) =~= seq!["Install failed: "@ + message@]);
        },
    }
    let ghost start = line_views(console@);
    let ghost all = text_views(messages@);
    let mut j: usize = 0;
    while j < messages.len()
        invariant
            all == text_views(messages@),
            j <= all.len(),
            line_views(console@) == logged(start, stamp@, all.take(j as int)),
        decreases all.len() - j,
    {
        assert(all.take(j + 1).drop_last() =~= all.take(j as int));
        append_log(console, stamp, messages[j].as_str());
        j = j + 1;
    }
    assert(all.take(all.len() as int) =~= all);
}

} // verus!
