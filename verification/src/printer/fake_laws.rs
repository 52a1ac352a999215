//! What the fake printer does with its script, and what it calls its files.

use vstd::prelude::*;

use crate::printer::fake::{
    copy_ms, flaky_left, is_scripted, job_file, join_dashed, slug_chars, spec_slugify, state_after, state_of,
    step_percent, FakeAction, FakeRun, Scripted, Stage,
};
use crate::printer::{PreparedJob, PrintError};
use crate::protocol::PrintMode;
use crate::render::Tone;
use crate::models::Family;
use crate::text::{
    dec, is_alnum, is_digit, is_space, lemma_dec_reads_back, split, starts_with, trim_left, trim_right,
};

verus! {

// ------------------------------------------------------------------ the script

/// A flaky printer fails as often as it says and then works: each attempt counts one off, and the last one leaves
/// it well.
pub proof fn lemma_flaky_counts_down(n: u32, r: Scripted)
    requires
        is_scripted(r, "flaky:"@ + dec(n as nat)),
    ensures
        n > 0 ==> r is Fail && state_after("flaky:"@ + dec(n as nat)) == Some("flaky:"@ + dec((n - 1) as nat)),
        n == 0 ==> r == Scripted::Proceed && state_after("flaky:"@ + dec(n as nat)) == Some("ok"@),
{
    let s = "flaky:"@ + dec(n as nat);
    let d = dec(n as nat);
    reveal_strlit("flaky:");
    reveal_strlit("off");
    reveal_strlit("no-paper");
    reveal_strlit("overheated");
    reveal_strlit("low-battery");
    reveal_strlit("adapter-off");
    reveal_strlit("panic");
    assert("flaky:"@.len() == 6);
    assert(s[0] == 'f');
    assert("off"@[0] == 'o' && "no-paper"@[0] == 'n' && "overheated"@[0] == 'o' && "low-battery"@[0] == 'l'
        && "adapter-off"@[0] == 'a' && "panic"@[0] == 'p');
    assert(s.subrange(0, 6) =~= "flaky:"@);
    assert(starts_with(s, "flaky:"@));
    assert(s.skip(6) =~= d);
    lemma_dec_reads_back(n as nat);
    assert(is_digit(d[0]) && is_digit(d.last()));
    assert(trim_left(d, |c: char| is_space(c)) == d);
    assert(trim_right(d, |c: char| is_space(c)) == d);
    assert(flaky_left(s) == n);
}

/// The scripted states come to the errors of their names, each of which can be waited for; any other state lets
/// the print go on.
pub proof fn lemma_scripted(r: Scripted, state: Seq<char>)
    requires
        is_scripted(r, state),
    ensures
        state == "off"@ ==> r == Scripted::Fail(PrintError::NotFound),
        state == "adapter-off"@ ==> r == Scripted::Fail(PrintError::AdapterOff),
        state == "no-paper"@ || state == "overheated"@ || state == "low-battery"@ ==> (r matches Scripted::Fail(e)
            && e matches PrintError::Condition(c) && c.error_is(state) && !c.ok),
        state == "ok"@ || state == "slow"@ ==> r == Scripted::Proceed,
        r matches Scripted::Fail(e) ==> e.spec_retryable(),
        state_of(None) == "ok"@,
{
    reveal_strlit("off");
    reveal_strlit("no-paper");
    reveal_strlit("overheated");
    reveal_strlit("low-battery");
    reveal_strlit("adapter-off");
    reveal_strlit("panic");
    reveal_strlit("ok");
    reveal_strlit("slow");
    reveal_strlit("flaky:");
    reveal_strlit("other");
    assert("off"@.len() == 3 && "no-paper"@.len() == 8 && "overheated"@.len() == 10 && "low-battery"@.len() == 11
        && "adapter-off"@.len() == 11 && "panic"@.len() == 5 && "ok"@.len() == 2 && "slow"@.len() == 4
        && "flaky:"@.len() == 6 && "other"@.len() == 5);
    assert("low-battery"@[0] == 'l' && "adapter-off"@[0] == 'a');
}

// ------------------------------------------------------------------ time

/// A slow copy takes fifteen seconds; others take longer the more lines they have, from a fifth of a second to
/// three seconds.
pub proof fn lemma_copy_times(a: int, b: int)
    requires
        0 <= a <= b,
    ensures
        copy_ms(true, a) == 15000,
        200 <= copy_ms(false, a) <= copy_ms(false, b) <= 3000,
        copy_ms(false, 0) == 200,
        copy_ms(false, 1500) == 1200,
{
}

/// Progress grows from step to step and from copy to copy, from five up to ninety-five of a hundred.
pub proof fn lemma_steps(c: int, s: int, copies: int)
    requires
        0 <= c < copies,
        0 <= s < 5,
    ensures
        5 <= step_percent(c, s, copies) < 95,
        s < 4 ==> step_percent(c, s, copies) <= step_percent(c, s + 1, copies),
        c + 1 < copies ==> step_percent(c, s, copies) <= step_percent(c + 1, s, copies),
        step_percent(0, 0, copies) == 5,
{
    let (n, at) = (copies * 5, c * 5 + s);
    assert(0 <= at * 90 / n < 90 && at * 90 / n <= (at + 1) * 90 / n && at * 90 / n <= (at + 5) * 90 / n && 0int / n
        == 0) by (nonlinear_arith)
        requires
            0 <= at < n,
            n > 0,
    ;
}

/// A fake print packs as the model that it stands for would: in gray where the job and the family have it.
pub proof fn lemma_fake_packs(run: FakeRun, job: PreparedJob, a: FakeAction)
    requires
        run.stage == Stage::Pack,
        run.is_action(job, a),
    ensures
        a matches FakeAction::Pack { mode, width_px } && width_px == 384 && (mode == PrintMode::Gray4 <==> run.family
            == Family::Mxw01 && job.opts.tone == Tone::Grayscale),
{
}

// ------------------------------------------------------------------ files

/// A character that file names have.
pub open spec fn is_plain(c: char) -> bool {
    'a' <= c <= 'z' || '0' <= c <= '9' || c == '-'
}

proof fn lemma_parts_are_plain(s: Seq<char>)
    requires
        forall|i: int| 0 <= i < s.len() ==> is_plain(#[trigger] s[i]),
    ensures
        forall|k: int, i: int|
            0 <= k < split(s, '-').len() && 0 <= i < split(s, '-')[k].len() ==> is_plain(
                #[trigger] split(s, '-')[k][i],
            ),
    decreases s.len(),
{
    crate::text::lemma_find_char(s, '-');
    match crate::text::find_char(s, '-') {
        Some(m) => {
            let rest = s.skip(m + 1);
            assert forall|i: int| 0 <= i < rest.len() implies is_plain(#[trigger] rest[i]) by {
                assert(rest[i] == s[i + m + 1]);
            }
            lemma_parts_are_plain(rest);
            let p = split(s, '-');
            assert forall|k: int, i: int| 0 <= k < p.len() && 0 <= i < p[k].len() implies is_plain(
                #[trigger] p[k][i],
            ) by {
                if k == 0 {
                    assert(p[0] == s.take(m));
                    assert(p[0][i] == s[i]);
                } else {
                    assert(p[k] == split(rest, '-')[k - 1]);
                    assert(is_plain(split(rest, '-')[k - 1][i]));
                }
            }
        },
        None => {
            assert(split(s, '-')[0] == s);
        },
    }
}

proof fn lemma_join_is_plain(parts: Seq<Seq<char>>)
    requires
        forall|k: int, i: int|
            0 <= k < parts.len() && 0 <= i < parts[k].len() ==> is_plain(#[trigger] parts[k][i]),
    ensures
        forall|i: int| 0 <= i < join_dashed(parts).len() ==> is_plain(#[trigger] join_dashed(parts)[i]),
    decreases parts.len(),
{
    if parts.len() > 0 {
        let rest = parts.drop_last();
        assert forall|k: int, i: int| 0 <= k < rest.len() && 0 <= i < rest[k].len() implies is_plain(
            #[trigger] rest[k][i],
        ) by {
            assert(rest[k] == parts[k]);
            assert(is_plain(parts[k][i]));
        }
        lemma_join_is_plain(rest);
        let b = join_dashed(rest);
        let j = join_dashed(parts);
        let l = parts.last();
        assert forall|i: int| 0 <= i < j.len() implies is_plain(#[trigger] j[i]) by {
            if l.len() == 0 {
                assert(is_plain(b[i]));
            } else if b.len() == 0 {
                assert(parts[parts.len() - 1] == l);
                assert(is_plain(parts[parts.len() - 1][i]));
            } else if i < b.len() {
                assert(is_plain(b[i]));
            } else if i > b.len() {
                assert(j[i] == parts[parts.len() - 1][i - b.len() - 1]);
            }
        }
    }
}

/// Whatever a job is called, the name of its file has one to forty characters, all of them small letters, digits
/// and dashes.
pub proof fn lemma_file_names(name: Seq<char>)
    ensures
        1 <= spec_slugify(name).len() <= 40,
        forall|i: int| 0 <= i < spec_slugify(name).len() ==> is_plain(#[trigger] spec_slugify(name)[i]),
{
    reveal_strlit("job");
    let s = slug_chars(name);
    assert forall|i: int| 0 <= i < s.len() implies is_plain(#[trigger] s[i]) by {
        assert(s[i] == if is_alnum(name[i]) {
            crate::text::lower_char(name[i])
        } else {
            '-'
        });
    }
    lemma_parts_are_plain(s);
    lemma_join_is_plain(split(s, '-'));
}

/// Jobs with different ids have different files, whatever they are called.
pub proof fn lemma_files_of_jobs(a: u32, b: u32)
    requires
        job_file(a, ".json"@) == job_file(b, ".json"@),
    ensures
        a == b,
{
    let (x, y) = (dec(a as nat), dec(b as nat));
    let h = "job-"@;
    let t = ".json"@;
    let (u, v) = (job_file(a, t), job_file(b, t));
    assert(u.len() == h.len() + x.len() + t.len());
    assert(v.len() == h.len() + y.len() + t.len());
    assert(u.subrange(h.len() as int, (h.len() + x.len()) as int) =~= x);
    assert(v.subrange(h.len() as int, (h.len() + y.len()) as int) =~= y);
    lemma_dec_reads_back(a as nat);
    lemma_dec_reads_back(b as nat);
}

} // verus!
