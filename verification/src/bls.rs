//! Pure text transforms over bootloader (BLS) entry files: the
//! kernel-argument delete/append edit and the platform-ID override.
//!
//! The kernel-argument deletion is a deliberately naive whitespace-padded
//! substring strategy, not a command-line tokenizer: it does not
//! understand quoting. Consumers may depend on this exact matching
//! behaviour, so it is specified as such.

use vstd::prelude::*;
use vstd::string::StrSliceExecFns;
use vstd::string::StringExecFns;
use crate::errors::{ErrorKind, InstallError};
use crate::strutil::{
    contains_seq, find_char, lemma_lines_last, lemma_lines_step, lemma_replace_all_no_occurrence,
    lines_of, replace_all, replace_all_spec, str_eq, str_matches_at, strip_cr, trim_both,
    trim_end_spec, trim_end_str, trim_spec,
};

verus! {

/// A line that the edit treats as the kernel-argument line: it starts
/// with `options` followed by a space.
pub open spec fn is_options_line(l: Seq<char>) -> bool {
    l.len() >= 8 && l.take(8) == "options "@
}

/// A token padded with one space on each side, the form the naive
/// deletion searches for.
pub open spec fn pad1(a: Seq<char>) -> Seq<char> {
    seq![' '] + a + seq![' ']
}

/// The options content after each deletion argument, padded, has been
/// replaced by a single space, in order.
pub open spec fn delete_fold(c: Seq<char>, del: Seq<Seq<char>>) -> Seq<char>
    decreases del.len(),
{
    if del.len() == 0 {
        c
    } else {
        delete_fold(replace_all_spec(c, pad1(del[0]), seq![' ']), del.drop_first())
    }
}

/// The appended arguments, each preceded by a single space.
pub open spec fn appends_spec(app: Seq<Seq<char>>) -> Seq<char>
    decreases app.len(),
{
    if app.len() == 0 {
        Seq::empty()
    } else {
        seq![' '] + app[0] + appends_spec(app.drop_first())
    }
}

/// The single options line after the delete/append edit.
pub open spec fn edited_options_line(l: Seq<char>, del: Seq<Seq<char>>, app: Seq<Seq<char>>) -> Seq<
    char,
> {
    "options "@ + trim_spec(delete_fold(pad1(l.skip(8)), del)) + appends_spec(app)
}

/// One output line: the options line edited, every other line copied
/// with trailing whitespace trimmed; each followed by a newline.
pub open spec fn rendered_line(l: Seq<char>, del: Seq<Seq<char>>, app: Seq<Seq<char>>) -> Seq<
    char,
> {
    (if is_options_line(l) {
        edited_options_line(l, del, app)
    } else {
        trim_end_spec(l)
    }) + seq!['\n']
}

/// The whole edited text, line by line.
pub open spec fn render_lines(lines: Seq<Seq<char>>, del: Seq<Seq<char>>, app: Seq<Seq<char>>) -> Seq<
    char,
>
    decreases lines.len(),
{
    if lines.len() == 0 {
        Seq::empty()
    } else {
        rendered_line(lines[0], del, app) + render_lines(lines.drop_first(), del, app)
    }
}

/// How many lines are options lines.
pub open spec fn n_options(lines: Seq<Seq<char>>) -> nat
    decreases lines.len(),
{
    if lines.len() == 0 {
        0
    } else {
        (if is_options_line(lines[0]) {
            1nat
        } else {
            0nat
        }) + n_options(lines.drop_first())
    }
}

/// The argument lists as sequences of character sequences; an absent
/// list is the empty list.
pub open spec fn opt_args_view(o: Option<&Vec<String>>) -> Seq<Seq<char>> {
    match o {
        None => Seq::empty(),
        Some(v) => v.deep_view(),
    }
}

proof fn lemma_render_snoc(lines: Seq<Seq<char>>, l: Seq<char>, del: Seq<Seq<char>>, app: Seq<
    Seq<char>,
>)
    ensures
        render_lines(lines.push(l), del, app) == render_lines(lines, del, app) + rendered_line(
            l,
            del,
            app,
        ),
    decreases lines.len(),
{
    let p = lines.push(l);
    if lines.len() == 0 {
        assert(p[0] == l);
        assert(p.drop_first() =~= Seq::<Seq<char>>::empty());
        assert(render_lines(Seq::<Seq<char>>::empty(), del, app) == Seq::<char>::empty());
        assert(render_lines(p, del, app) == rendered_line(l, del, app) + Seq::<char>::empty());
        assert(rendered_line(l, del, app) + Seq::<char>::empty() =~= rendered_line(l, del, app));
        assert(Seq::<char>::empty() + rendered_line(l, del, app) =~= rendered_line(l, del, app));
    } else {
        assert(p[0] == lines[0]);
        assert(p.drop_first() =~= lines.drop_first().push(l));
        lemma_render_snoc(lines.drop_first(), l, del, app);
        assert(render_lines(p, del, app) == rendered_line(lines[0], del, app) + render_lines(
            p.drop_first(),
            del,
            app,
        ));
        assert(render_lines(lines, del, app) == rendered_line(lines[0], del, app) + render_lines(
            lines.drop_first(),
            del,
            app,
        ));
        assert(rendered_line(lines[0], del, app) + (render_lines(lines.drop_first(), del, app)
            + rendered_line(l, del, app)) =~= (rendered_line(lines[0], del, app) + render_lines(
            lines.drop_first(),
            del,
            app,
        )) + rendered_line(l, del, app));
    }
}

proof fn lemma_n_options_snoc(lines: Seq<Seq<char>>, l: Seq<char>)
    ensures
        n_options(lines.push(l)) == n_options(lines) + (if is_options_line(l) {
            1nat
        } else {
            0nat
        }),
    decreases lines.len(),
{
    let p = lines.push(l);
    if lines.len() == 0 {
        assert(p[0] == l);
        assert(p.drop_first() =~= Seq::<Seq<char>>::empty());
        assert(n_options(Seq::<Seq<char>>::empty()) == 0);
    } else {
        assert(p[0] == lines[0]);
        assert(p.drop_first() =~= lines.drop_first().push(l));
        lemma_n_options_snoc(lines.drop_first(), l);
        assert(n_options(p) == (if is_options_line(lines[0]) {
            1nat
        } else {
            0nat
        }) + n_options(p.drop_first()));
    }
}

/// The options count of a concatenation is the sum of the counts.
pub proof fn lemma_n_options_concat(a: Seq<Seq<char>>, b: Seq<Seq<char>>)
    ensures
        n_options(a + b) == n_options(a) + n_options(b),
    decreases a.len(),
{
    if a.len() == 0 {
        assert(a + b =~= b);
    } else {
        assert((a + b)[0] == a[0]);
        assert((a + b).drop_first() =~= a.drop_first() + b);
        lemma_n_options_concat(a.drop_first(), b);
    }
}

proof fn lemma_delete_fold_snoc(c: Seq<char>, del: Seq<Seq<char>>, a: Seq<char>)
    ensures
        delete_fold(c, del.push(a)) == replace_all_spec(delete_fold(c, del), pad1(a), seq![' ']),
    decreases del.len(),
{
    let p = del.push(a);
    if del.len() == 0 {
        assert(p[0] == a);
        assert(p.drop_first() =~= Seq::<Seq<char>>::empty());
        assert(delete_fold(c, p) == delete_fold(
            replace_all_spec(c, pad1(a), seq![' ']),
            Seq::<Seq<char>>::empty(),
        ));
        assert(delete_fold(replace_all_spec(c, pad1(a), seq![' ']), Seq::<Seq<char>>::empty())
            == replace_all_spec(c, pad1(a), seq![' ']));
        assert(delete_fold(c, del) == c);
    } else {
        assert(p[0] == del[0]);
        assert(p.drop_first() =~= del.drop_first().push(a));
        lemma_delete_fold_snoc(replace_all_spec(c, pad1(del[0]), seq![' ']), del.drop_first(), a);
        assert(delete_fold(c, p) == delete_fold(
            replace_all_spec(c, pad1(del[0]), seq![' ']),
            p.drop_first(),
        ));
        assert(delete_fold(c, del) == delete_fold(
            replace_all_spec(c, pad1(del[0]), seq![' ']),
            del.drop_first(),
        ));
    }
}

proof fn lemma_appends_snoc(app: Seq<Seq<char>>, x: Seq<char>)
    ensures
        appends_spec(app.push(x)) == appends_spec(app) + seq![' '] + x,
    decreases app.len(),
{
    let p = app.push(x);
    if app.len() == 0 {
        assert(p[0] == x);
        assert(p.drop_first() =~= Seq::<Seq<char>>::empty());
        assert(appends_spec(Seq::<Seq<char>>::empty()) == Seq::<char>::empty());
        assert(appends_spec(p) == seq![' '] + x + Seq::<char>::empty());
        assert(seq![' '] + x + Seq::<char>::empty() =~= seq![' '] + x);
        assert(appends_spec(app) + seq![' '] + x =~= seq![' '] + x);
    } else {
        assert(p[0] == app[0]);
        assert(p.drop_first() =~= app.drop_first().push(x));
        lemma_appends_snoc(app.drop_first(), x);
        assert(appends_spec(p) == seq![' '] + app[0] + appends_spec(p.drop_first()));
        assert(appends_spec(app) == seq![' '] + app[0] + appends_spec(app.drop_first()));
        assert(seq![' '] + app[0] + (appends_spec(app.drop_first()) + seq![' '] + x) =~= (seq![' ']
            + app[0] + appends_spec(app.drop_first())) + seq![' '] + x);
    }
}

/// Peeling one line off the front of a text: up to the next newline (or
/// the end), with one trailing carriage return stripped.
proof fn lemma_peel_line(s: Seq<char>, pos: int, j: int, lend: int)
    requires
        0 <= pos < s.len(),
        pos <= lend <= j <= s.len(),
        forall|k: int| pos <= k < j ==> s[k] != '\n',
        j < s.len() ==> s[j] == '\n',
        (j > pos && s[j - 1] == '\r') ==> lend == j - 1,
        !(j > pos && s[j - 1] == '\r') ==> lend == j,
    ensures
        j < s.len() ==> lines_of(s.skip(pos)) == seq![s.subrange(pos, lend)] + lines_of(
            s.skip(j + 1),
        ),
        j == s.len() ==> lines_of(s.skip(pos)) == seq![s.subrange(pos, lend)],
{
    let tail = s.skip(pos);
    let raw = s.subrange(pos, j);
    assert(tail.len() == s.len() - pos);
    if j < s.len() {
        assert forall|kk: int| 0 <= kk < j - pos implies tail[kk] != '\n' by {
            assert(tail[kk] == s[pos + kk]);
        }
        assert(tail[j - pos] == s[j]);
        lemma_lines_step(tail, Seq::empty(), j - pos);
        assert(Seq::<char>::empty() + tail.take(j - pos) =~= tail.take(j - pos));
        assert(tail.take(j - pos) =~= raw);
        assert(tail.skip(j - pos + 1) =~= s.skip(j + 1));
    } else {
        assert forall|kk: int| 0 <= kk < tail.len() implies tail[kk] != '\n' by {
            assert(tail[kk] == s[pos + kk]);
        }
        lemma_lines_last(tail, Seq::empty());
        assert(Seq::<char>::empty() + tail =~= tail);
        assert(tail =~= raw);
    }
    if j > pos && s[j - 1] == '\r' {
        assert(raw.len() == j - pos);
        assert(raw.last() == s[j - 1]);
        assert(strip_cr(raw) =~= s.subrange(pos, lend));
    } else {
        if raw.len() > 0 {
            assert(raw.last() == s[j - 1]);
        }
        assert(strip_cr(raw) =~= raw);
        assert(raw =~= s.subrange(pos, lend));
    }
}

/// A sequence whose tail from position `k` starts with `l` has `l` at
/// position `k`; the prefix relations follow.
proof fn lemma_skip_cons(lines: Seq<Seq<char>>, k: int, l: Seq<char>, rest: Seq<Seq<char>>)
    requires
        0 <= k <= lines.len(),
        lines.skip(k) == seq![l] + rest,
    ensures
        k < lines.len(),
        lines[k] == l,
        lines.skip(k + 1) == rest,
        lines.take(k + 1) == lines.take(k).push(l),
{
    assert(lines.skip(k).len() == lines.len() - k);
    assert((seq![l] + rest).len() == 1 + rest.len());
    assert(lines.skip(k)[0] == lines[k]);
    assert((seq![l] + rest)[0] == l);
    assert(lines.skip(k + 1) =~= rest) by {
        assert forall|i: int| 0 <= i < lines.len() - k - 1 implies lines.skip(k + 1)[i] == rest[i]
        by {
            assert(lines.skip(k + 1)[i] == lines[k + 1 + i]);
            assert(lines.skip(k)[i + 1] == lines[k + 1 + i]);
            assert((seq![l] + rest)[i + 1] == rest[i]);
        }
    }
    assert(lines.take(k + 1) =~= lines.take(k).push(l));
}

/// A string with a space added at each end: the whitespace padding the
/// naive deletion works over.
pub fn add_whitespaces(s: &str) -> (r: String)
    ensures
        r@ == pad1(s@),
{
    let mut r = String::new();
    r.append(" ");
    r.append(s);
    r.append(" ");
    proof {
        reveal_strlit(" ");
        assert(" "@ =~= seq![' ']);
        assert(Seq::<char>::empty() + " "@ + s@ + " "@ =~= pad1(s@));
    }
    r
}

/// Edit the kernel-argument (`options`) line of one BLS entry text:
/// delete each given argument as a whitespace-padded exact token, then
/// append the given arguments, each preceded by a single space. Exactly
/// one options line must exist. All other lines are copied with trailing
/// whitespace trimmed; every output line ends with a newline.
#[verifier::rlimit(50)]
pub fn bls_entry_delete_and_append_kargs(
    orig_contents: &str,
    delete_args: Option<&Vec<String>>,
    append_args: Option<&Vec<String>>,
) -> (r: Result<String, InstallError>)
    ensures
        ({
            let lines = lines_of(orig_contents@);
            let del = opt_args_view(delete_args);
            let app = opt_args_view(append_args);
            &&& (n_options(lines) == 0 <==> (r matches Err(e) && e.kind matches
            ErrorKind::OptionsLineMissing))
            &&& (n_options(lines) >= 2 <==> (r matches Err(e) && e.kind matches
            ErrorKind::MultipleOptionsLines))
            &&& (n_options(lines) == 1 ==> (r matches Ok(out) && out@ == render_lines(
                lines,
                del,
                app,
            )))
            &&& (r is Ok ==> n_options(lines) == 1)
        }),
{
    let ghost lines = lines_of(orig_contents@);
    let ghost del = opt_args_view(delete_args);
    let ghost app = opt_args_view(append_args);
    let n = orig_contents.unicode_len();
    let mut out = String::new();
    let mut pos: usize = 0;
    let mut found_options = false;
    let ghost mut k: int = 0;
    proof {
        assert(orig_contents@.skip(0) =~= orig_contents@);
        assert(lines.skip(0) =~= lines);
        assert(lines.take(0) =~= Seq::<Seq<char>>::empty());
    }
    while pos < n
        invariant
            n == orig_contents@.len(),
            pos <= n,
            0 <= k <= lines.len(),
            lines == lines_of(orig_contents@),
            del == opt_args_view(delete_args),
            app == opt_args_view(append_args),
            lines_of(orig_contents@.skip(pos as int)) == lines.skip(k),
            out@ == render_lines(lines.take(k), del, app),
            n_options(lines.take(k)) == (if found_options {
                1nat
            } else {
                0nat
            }),
        decreases n - pos,
    {
        let s = orig_contents;
        let j = find_char(s, n, pos, '\n');
        let lend = if j > pos && s.get_char(j - 1) == '\r' {
            j - 1
        } else {
            j
        };
        let line = s.substring_char(pos, lend);
        let next = if j < n {
            j + 1
        } else {
            n
        };
        let ghost rest_lines = lines_of(s@.skip(next as int));
        proof {
            lemma_peel_line(s@, pos as int, j as int, lend as int);
            if j == n {
                assert(s@.skip(next as int) =~= Seq::<char>::empty());
                assert(lines_of(Seq::<char>::empty()) =~= Seq::<Seq<char>>::empty());
                assert(seq![line@] + rest_lines =~= seq![line@]);
            }
            assert(lines.skip(k) == seq![line@] + rest_lines);
            lemma_skip_cons(lines, k, line@, rest_lines);
            reveal_strlit("options ");
            reveal_strlit("\n");
            assert("\n"@ =~= seq!['\n']);
        }
        let line_len = lend - pos;
        let is_opts = if line_len >= 8 {
            let r = str_matches_at(line, line_len, 0, "options ", 8);
            proof {
                assert(line@.subrange(0, 8) =~= line@.take(8));
            }
            r
        } else {
            false
        };
        proof {
            assert(is_opts == is_options_line(line@));
        }
        if !is_opts {
            let t = trim_end_str(line);
            out.append(t.as_str());
            out.append("\n");
            proof {
                lemma_render_snoc(lines.take(k), line@, del, app);
                lemma_n_options_snoc(lines.take(k), line@);
                assert(rendered_line(line@, del, app) =~= trim_end_spec(line@) + seq!['\n']);
                assert(out@ =~= render_lines(lines.take(k + 1), del, app));
            }
        } else if found_options {
            proof {
                lemma_n_options_snoc(lines.take(k), line@);
                lemma_n_options_concat(lines.take(k + 1), lines.skip(k + 1));
                assert(lines.take(k + 1) + lines.skip(k + 1) =~= lines);
                assert(n_options(lines) >= 2);
            }
            return Err(InstallError::new(ErrorKind::MultipleOptionsLines));
        } else {
            found_options = true;
            out.append("options ");
            let rest = line.substring_char(8, line_len);
            proof {
                assert(rest@ =~= line@.skip(8));
            }
            let mut padded = add_whitespaces(rest);
            proof {
                assert(del.take(0) =~= Seq::<Seq<char>>::empty());
            }
            match delete_args {
                Some(args) => {
                    let mut di: usize = 0;
                    while di < args.len()
                        invariant
                            del == args.deep_view(),
                            del.len() == args@.len(),
                            di <= args@.len(),
                            padded@ == delete_fold(pad1(rest@), del.take(di as int)),
                            rest@ == line@.skip(8),
                        decreases args@.len() - di,
                    {
                        let parg = add_whitespaces(args[di].as_str());
                        proof {
                            assert(args@[di as int]@ == del[di as int]);
                            assert(parg@.len() >= 2);
                            reveal_strlit(" ");
                            assert(" "@ =~= seq![' ']);
                        }
                        let replaced = replace_all(padded.as_str(), parg.as_str(), " ");
                        proof {
                            lemma_delete_fold_snoc(
                                pad1(rest@),
                                del.take(di as int),
                                del[di as int],
                            );
                            assert(del.take(di as int).push(del[di as int]) =~= del.take(
                                di + 1,
                            ));
                        }
                        padded = replaced;
                        di = di + 1;
                    }
                    proof {
                        assert(del.take(args@.len() as int) =~= del);
                    }
                },
                None => {
                    proof {
                        assert(del =~= Seq::<Seq<char>>::empty());
                    }
                },
            }
            let trimmed = trim_both(padded.as_str());
            out.append(trimmed.as_str());
            let ghost out_base = render_lines(lines.take(k), del, app) + "options "@ + trim_spec(
                delete_fold(pad1(line@.skip(8)), del),
            );
            proof {
                assert(out@ =~= out_base);
                assert(app.take(0) =~= Seq::<Seq<char>>::empty());
                assert(out@ =~= out_base + appends_spec(app.take(0)));
            }
            match append_args {
                Some(args) => {
                    let mut ai: usize = 0;
                    while ai < args.len()
                        invariant
                            app == args.deep_view(),
                            app.len() == args@.len(),
                            ai <= args@.len(),
                            out@ == out_base + appends_spec(app.take(ai as int)),
                        decreases args@.len() - ai,
                    {
                        out.append(" ");
                        out.append(args[ai].as_str());
                        proof {
                            reveal_strlit(" ");
                            assert(" "@ =~= seq![' ']);
                            assert(args@[ai as int]@ == app[ai as int]);
                            lemma_appends_snoc(app.take(ai as int), app[ai as int]);
                            assert(app.take(ai as int).push(app[ai as int]) =~= app.take(ai + 1));
                            assert(out@ =~= out_base + appends_spec(app.take(ai + 1)));
                        }
                        ai = ai + 1;
                    }
                    proof {
                        assert(app.take(args@.len() as int) =~= app);
                    }
                },
                None => {
                    proof {
                        assert(app =~= Seq::<Seq<char>>::empty());
                    }
                },
            }
            out.append("\n");
            proof {
                lemma_render_snoc(lines.take(k), line@, del, app);
                lemma_n_options_snoc(lines.take(k), line@);
                assert(rendered_line(line@, del, app) =~= edited_options_line(line@, del, app)
                    + seq!['\n']);
                assert(out@ =~= render_lines(lines.take(k + 1), del, app));
            }
        }
        pos = next;
        proof {
            k = k + 1;
        }
    }
    proof {
        assert(orig_contents@.skip(n as int) =~= Seq::<char>::empty());
        assert(lines.skip(k).len() == 0);
        assert(k == lines.len());
        assert(lines.take(k) =~= lines);
    }
    if !found_options {
        return Err(InstallError::new(ErrorKind::OptionsLineMissing));
    }
    Ok(out)
}

/// The literal token the platform override looks for.
pub open spec fn platform_token() -> Seq<char> {
    "ignition.platform.id=metal"@
}

/// The token the platform override writes instead.
pub open spec fn platform_replacement(p: Seq<char>) -> Seq<char> {
    "ignition.platform.id="@ + p
}

/// Replace the literal `ignition.platform.id=metal` with the requested
/// platform anywhere in one BLS entry text. Fails when no replacement
/// occurred (the content is unchanged).
pub fn bls_entry_write_platform(orig_contents: &str, platform: &str) -> (r: Result<
    String,
    InstallError,
>)
    ensures
        ({
            let replaced = replace_all_spec(
                orig_contents@,
                platform_token(),
                platform_replacement(platform@),
            );
            &&& ((replaced == orig_contents@) <==> (r matches Err(e) && e.kind matches
            ErrorKind::PlatformTokenNotFound))
            &&& (replaced != orig_contents@ ==> (r matches Ok(out) && out@ == replaced))
        }),
{
    let mut repl = String::new();
    repl.append("ignition.platform.id=");
    repl.append(platform);
    proof {
        reveal_strlit("ignition.platform.id=metal");
        reveal_strlit("ignition.platform.id=");
        assert(Seq::<char>::empty() + "ignition.platform.id="@ + platform@ =~= platform_replacement(
            platform@,
        ));
    }
    let new_contents = replace_all(orig_contents, "ignition.platform.id=metal", repl.as_str());
    if str_eq(new_contents.as_str(), orig_contents) {
        Err(InstallError::new(ErrorKind::PlatformTokenNotFound))
    } else {
        Ok(new_contents)
    }
}

/// Does setting this platform need an edit at all? Setting the default
/// platform is a no-op, since the token already matches and "no change
/// occurred" would otherwise be misreported as failure.
pub fn platform_edit_needed(platform: &str) -> (r: bool)
    ensures
        r == (platform@ != "metal"@),
{
    !str_eq(platform, "metal")
}

/// Law: the platform rewrite is not idempotent by design. Once the
/// default token no longer occurs in a text — as after a successful
/// rewrite whose replacement did not reintroduce it — rewriting again
/// leaves the text unchanged, which `bls_entry_write_platform` reports
/// as `PlatformTokenNotFound`.
pub proof fn lemma_platform_rewrite_not_idempotent(first: Seq<char>, p: Seq<char>)
    requires
        !contains_seq(first, platform_token()),
    ensures
        replace_all_spec(first, platform_token(), platform_replacement(p)) == first,
{
    reveal_strlit("ignition.platform.id=metal");
    lemma_replace_all_no_occurrence(first, platform_token(), platform_replacement(p));
}

/// The line appended for first-boot kernel arguments.
pub fn firstboot_kargs_line(args: &str) -> (r: String)
    ensures
        r@ == "set ignition_network_kcmdline=\""@ + args@ + "\"\n"@,
{
    let mut r = String::new();
    r.append("set ignition_network_kcmdline=\"");
    r.append(args);
    r.append("\"\n");
    proof {
        assert(Seq::<char>::empty() + "set ignition_network_kcmdline=\""@ + args@ + "\"\n"@
            =~= "set ignition_network_kcmdline=\""@ + args@ + "\"\n"@);
    }
    r
}

/// A file name with the `.conf` extension: a dot at the fifth-from-last
/// position, after a non-empty stem.
pub open spec fn is_conf_name(name: Seq<char>) -> bool {
    name.len() >= 6 && name.skip(name.len() - 5) == ".conf"@
}

/// Is this the name of a bootloader entry file the editor touches?
pub fn is_conf_file_name(name: &str) -> (r: bool)
    ensures
        r == is_conf_name(name@),
{
    let n = name.unicode_len();
    if n < 6 {
        return false;
    }
    let suffix = name.substring_char(n - 5, n);
    proof {
        assert(suffix@ =~= name@.skip(n - 5));
    }
    str_eq(suffix, ".conf")
}

} // verus!
