//! The directory page: a template with its placeholders filled in.

use crate::decimal::{decimal, u64_to_decimal, usize_to_decimal};
use crate::text::{chars_of, matches_at, occurs_at, string_of};
use vstd::prelude::*;

verus! {

/// `s` with every occurrence of `from` replaced by `to`, read from the left; occurrences
/// do not overlap, and what was put in is not read again. An empty `from` replaces nothing.
pub open spec fn replaced(s: Seq<char>, from: Seq<char>, to: Seq<char>) -> Seq<char>
    decreases s.len(),
{
    if s.len() == 0 || from.len() == 0 {
        s
    } else if occurs_at(s, from, 0) {
        to + replaced(s.skip(from.len() as int), from, to)
    } else {
        seq![s[0]] + replaced(s.drop_first(), from, to)
    }
}

/// `text` with every occurrence of `from` replaced by `to`.
pub fn replace_all(text: &str, from: &str, to: &str) -> (result: String)
    ensures
        result@ == replaced(text@, from@, to@),
{
    let v = chars_of(text);
    let f = chars_of(from);
    let t = chars_of(to);
    if f.len() == 0 || v.len() == 0 {
        return string_of(&v);
    }
    let mut out: Vec<char> = Vec::new();
    let mut pos: usize = 0;
    assert(v@.skip(0) =~= v@);
    assert(out@ + replaced(v@, f@, t@) =~= replaced(v@, f@, t@));
    while pos < v.len()
        invariant
            pos <= v@.len(),
            f@.len() > 0,
            replaced(v@, f@, t@) == out@ + replaced(v@.skip(pos as int), f@, t@),
        decreases v@.len() - pos,
    {
        let ghost rest = v@.skip(pos as int);
        let ghost before = out@;
        if matches_at(&v, &f, pos) {
            proof {
                assert(rest.subrange(0, f@.len() as int) =~= v@.subrange(
                    pos as int,
                    pos + f@.len(),
                ));
                assert(occurs_at(rest, f@, 0));
                assert(rest.skip(f@.len() as int) =~= v@.skip(pos + f@.len()));
            }
            let mut k: usize = 0;
            while k < t.len()
                invariant
                    k <= t@.len(),
                    out@ == before + t@.take(k as int),
                decreases t@.len() - k,
            {
                out.push(t[k]);
                assert(before + t@.take(k as int + 1) =~= (before + t@.take(k as int)).push(
                    t@[k as int],
                ));
                k += 1;
            }
            proof {
                assert(t@.take(t@.len() as int) =~= t@);
                assert(out@ + replaced(v@.skip(pos + f@.len()), f@, t@) =~= before + (t@
                    + replaced(rest.skip(f@.len() as int), f@, t@)));
            }
            pos = pos + f.len();
        } else {
            proof {
                if occurs_at(rest, f@, 0) {
                    assert(rest.subrange(0, f@.len() as int) =~= v@.subrange(
                        pos as int,
                        pos + f@.len(),
                    ));
                }
                assert(rest[0] == v@[pos as int]);
                assert(rest.drop_first() =~= v@.skip(pos as int + 1));
                assert(before.push(v@[pos as int]) + replaced(v@.skip(pos as int + 1), f@, t@)
                    =~= before + (seq![rest[0]] + replaced(rest.drop_first(), f@, t@)));
            }
            out.push(v[pos]);
            pos += 1;
        }
    }
    proof {
        assert(v@.skip(pos as int) =~= Seq::<char>::empty());
        assert(out@ + replaced(v@.skip(pos as int), f@, t@) =~= out@);
    }
    string_of(&out)
}

/// A year in decimal, with a minus sign in front if it lies before the year zero.
pub open spec fn year_text(year: i32) -> Seq<char> {
    if year < 0 {
        "-"@ + decimal((-year) as nat)
    } else {
        decimal(year as nat)
    }
}

fn year_to_text(year: i32) -> (text: String)
    ensures
        text@ == year_text(year),
{
    if year < 0 {
        let magnitude: u64 = (-(year as i64)) as u64;
        crate::text::join2("-", u64_to_decimal(magnitude).as_str())
    } else {
        u64_to_decimal(year as u64)
    }
}

/// The directory page: the template with its six placeholders filled in, one after the
/// other, in this order.
pub open spec fn page(
    template: Seq<char>,
    directory: Seq<char>,
    rows: Seq<char>,
    year: i32,
    host: Seq<char>,
    disk_usage: Seq<char>,
    total_files: usize,
) -> Seq<char> {
    let step1 = replaced(template, "{{ directory }}"@, directory);
    let step2 = replaced(step1, "{{ rows }}"@, rows);
    let step3 = replaced(step2, "{{ year }}"@, year_text(year));
    let step4 = replaced(step3, "{{ host }}"@, host);
    let step5 = replaced(step4, "{{ disk_usage }}"@, disk_usage);
    replaced(step5, "{{ total_files }}"@, decimal(total_files as nat))
}

/// Fills in the template of the directory page.
pub fn render_directory_page(
    template: &str,
    directory: &str,
    rows: &str,
    year: i32,
    host: &str,
    disk_usage: &str,
    total_files: usize,
) -> (html: String)
    ensures
        html@ == page(template@, directory@, rows@, year, host@, disk_usage@, total_files),
{
    let step1 = replace_all(template, "{{ directory }}", directory);
    let step2 = replace_all(step1.as_str(), "{{ rows }}", rows);
    let step3 = replace_all(step2.as_str(), "{{ year }}", year_to_text(year).as_str());
    let step4 = replace_all(step3.as_str(), "{{ host }}", host);
    let step5 = replace_all(step4.as_str(), "{{ disk_usage }}", disk_usage);
    replace_all(step5.as_str(), "{{ total_files }}", usize_to_decimal(total_files).as_str())
}

} // verus!
