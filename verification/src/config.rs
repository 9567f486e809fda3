//! The targets an operation is fanned out over, and the configuration text
//! that lists them.
//!
//! The configuration is an ini text with one section per target. The
//! section's header is the target's location below the base directory, its
//! last component the target's name; the `checkout` key holds the command
//! that clones the target.

use crate::text::{
    after_last, chars_of, lemma_position_is, position, precedes_or_equals, rows, same_chars,
    split_words, string_of, strip, stripped, tail_after, text_le, words, CharClass,
};
use configparser::ini::Ini;
use std::path::PathBuf;
use vstd::prelude::*;

verus! {

/// A filesystem location: an outside collection of bytes that this crate
/// hands on and reads through `Path::join` and `Path::parent` only.
#[verifier::external_type_specification]
#[verifier::external_body]
pub struct ExPathBuf(PathBuf);

/// `PathBuf::clone` gives back the same location.
pub assume_specification[ <PathBuf as Clone>::clone ](p: &PathBuf) -> (q: PathBuf)
    ensures
        q == *p,
;

/// What a location holds: its bytes, as the system spells them.
pub uninterp spec fn path_units(p: PathBuf) -> Seq<u8>;

/// What `Path::join` makes of the bytes of a location and a text to adjoin.
pub uninterp spec fn path_join(base: Seq<u8>, rel: Seq<char>) -> Seq<u8>;

/// What `Path::parent` makes of the bytes of a location: the bytes of the
/// location one level up, if there is one.
pub uninterp spec fn path_parent(p: Seq<u8>) -> Option<Seq<u8>>;

/// The bytes of a location that may be missing.
pub open spec fn units_of(p: Option<PathBuf>) -> Option<Seq<u8>> {
    match p {
        Some(q) => Some(path_units(q)),
        None => None,
    }
}

/// `Path::join`: the location `rel` adjoined to `base`. What the result
/// holds is a function of what `base` holds and of `rel` alone, named
/// `path_join`.
#[verifier::external_body]
pub(crate) fn join_path(base: &PathBuf, rel: &str) -> (joined: PathBuf)
    ensures
        path_units(joined) == path_join(path_units(*base), rel@),
{
    base.join(rel)
}

/// `Path::parent`: the location one level up, if there is one. Whether
/// there is one, and what it holds, is a function of what `p` holds alone,
/// named `path_parent`.
#[verifier::external_body]
pub(crate) fn parent_of(p: &PathBuf) -> (parent: Option<PathBuf>)
    ensures
        units_of(parent) == path_parent(path_units(*p)),
{
    match p.parent() {
        Some(q) => Some(q.to_path_buf()),
        None => None,
    }
}

/// One repository under management.
#[derive(Debug, Clone, PartialEq)]
pub struct Repo {
    pub name: String,
    pub path: PathBuf,
    pub clone_url: Option<String>,
}

/// A target as contracts see it.
pub struct RepoView {
    pub name: Seq<char>,
    pub path: PathBuf,
    pub clone_url: Option<Seq<char>>,
}

impl View for Repo {
    type V = RepoView;

    open spec fn view(&self) -> RepoView {
        RepoView {
            name: self.name@,
            path: self.path,
            clone_url: match self.clone_url {
                Some(u) => Some(u@),
                None => None,
            },
        }
    }
}

/// The views of a sequence of targets.
pub open spec fn repo_views(s: Seq<Repo>) -> Seq<RepoView> {
    Seq::new(s.len(), |i: int| s[i]@)
}

// ---------------------------------------------------------------------------
// The clone address in a checkout command
// ---------------------------------------------------------------------------

/// `s` without the single and then the double quotes around it.
pub open spec fn unquoted(s: Seq<char>) -> Seq<char> {
    strip(strip(s, CharClass::Exactly('\'')), CharClass::Exactly('"'))
}

/// The address that a checkout command clones from: the word after the
/// first word `clone`, without quotes. There is none when the command has
/// no word `clone` or nothing follows it.
pub open spec fn clone_url_in(cmd: Seq<char>) -> Option<Seq<char>> {
    let tokens = words(cmd);
    let at = position(tokens, "clone"@, 0);
    if 0 <= at && at + 1 < tokens.len() {
        Some(unquoted(tokens[at + 1]))
    } else {
        None
    }
}

/// Finds the address that a checkout command clones from.
pub fn extract_clone_url(checkout_cmd: &str) -> (url: Option<String>)
    ensures
        match url {
            Some(u) => clone_url_in(checkout_cmd@) == Some(u@),
            None => clone_url_in(checkout_cmd@) is None,
        },
{
    let tokens = split_words(&chars_of(checkout_cmd));
    let word = chars_of("clone");
    let ghost ts = rows(tokens@);
    let mut i: usize = 0;
    while i < tokens.len() && !same_chars(&tokens[i], &word)
        invariant
            i <= tokens.len(),
            ts == rows(tokens@),
            word@ == "clone"@,
            forall|j: int| 0 <= j < i ==> #[trigger] ts[j] != word@,
        decreases tokens.len() - i,
    {
        i = i + 1;
    }
    proof {
        lemma_position_is(ts, word@, 0, i as int);
    }
    if i < tokens.len() && tokens.len() - i > 1 {
        let inner = stripped(&tokens[i + 1], CharClass::Exactly('\''));
        Some(string_of(&stripped(&inner, CharClass::Exactly('"'))))
    } else {
        None
    }
}

// ---------------------------------------------------------------------------
// From sections to targets
// ---------------------------------------------------------------------------

/// One section of the configuration: its header, the location that the
/// header names, and the value of its `checkout` key.
#[derive(Debug, Clone, PartialEq)]
pub struct Section {
    pub header: String,
    pub path: PathBuf,
    pub checkout: Option<String>,
}

/// A section as contracts see it.
pub struct SectionView {
    pub header: Seq<char>,
    pub path: PathBuf,
    pub checkout: Option<Seq<char>>,
}

impl View for Section {
    type V = SectionView;

    open spec fn view(&self) -> SectionView {
        SectionView {
            header: self.header@,
            path: self.path,
            checkout: match self.checkout {
                Some(c) => Some(c@),
                None => None,
            },
        }
    }
}

/// The views of a sequence of sections.
pub open spec fn section_views(s: Seq<Section>) -> Seq<SectionView> {
    Seq::new(s.len(), |i: int| s[i]@)
}

/// The target that a section describes: named by the last component of the
/// header, cloned from the address in the checkout command.
pub open spec fn target_of(section: SectionView) -> RepoView {
    RepoView {
        name: after_last(section.header, '/'),
        path: section.path,
        clone_url: match section.checkout {
            Some(cmd) => clone_url_in(cmd),
            None => None,
        },
    }
}

/// `sorted` with `r` put behind the last target whose name does not come
/// after the name of `r`.
pub open spec fn inserted(sorted: Seq<RepoView>, r: RepoView) -> Seq<RepoView>
    decreases sorted.len(),
{
    if sorted.len() > 0 && !text_le(sorted.last().name, r.name) {
        inserted(sorted.drop_last(), r).push(sorted.last())
    } else {
        sorted.push(r)
    }
}

/// The targets of the sections in the order of their names; targets of the
/// same name stay in the order of their sections.
pub open spec fn targets_of(sections: Seq<SectionView>) -> Seq<RepoView>
    decreases sections.len(),
{
    if sections.len() == 0 {
        Seq::empty()
    } else {
        inserted(targets_of(sections.drop_last()), target_of(sections.last()))
    }
}

/// Whether the names of the targets never go down.
pub open spec fn ordered_by_name(s: Seq<RepoView>) -> bool {
    forall|i: int, j: int| 0 <= i <= j < s.len() ==> text_le(#[trigger] s[i].name, #[trigger] s[j].name)
}

/// Inserting at `pos` is what `inserted` does when every target from `pos`
/// on comes after `r` and the one before `pos`, if any, does not.
pub proof fn lemma_inserted_at(sorted: Seq<RepoView>, r: RepoView, pos: int)
    requires
        0 <= pos <= sorted.len(),
        forall|j: int| pos <= j < sorted.len() ==> !text_le((#[trigger] sorted[j]).name, r.name),
        0 < pos ==> text_le(sorted[pos - 1].name, r.name),
    ensures
        inserted(sorted, r) == sorted.insert(pos, r),
    decreases sorted.len() - pos,
{
    if pos == sorted.len() {
        assert(sorted.insert(pos, r) =~= sorted.push(r));
    } else {
        let front = sorted.drop_last();
        assert forall|j: int| pos <= j < front.len() implies !text_le(
            (#[trigger] front[j]).name,
            r.name,
        ) by {
            assert(front[j] == sorted[j]);
        }
        if pos > 0 {
            assert(front[pos - 1] == sorted[pos - 1]);
        }
        lemma_inserted_at(front, r, pos);
        assert(front.insert(pos, r).push(sorted.last()) =~= sorted.insert(pos, r));
    }
}

/// Dictionary order is reflexive.
pub proof fn lemma_text_le_refl(a: Seq<char>)
    ensures
        text_le(a, a),
    decreases a.len(),
{
    if a.len() > 0 {
        lemma_text_le_refl(a.drop_first());
    }
}

/// Dictionary order compares any two texts.
pub proof fn lemma_text_le_total(a: Seq<char>, b: Seq<char>)
    ensures
        text_le(a, b) || text_le(b, a),
    decreases a.len(),
{
    if a.len() > 0 && b.len() > 0 {
        if a[0] == b[0] {
            lemma_text_le_total(a.drop_first(), b.drop_first());
        } else {
            vstd::utf8::char_u32_cast(a[0], a[0] as u32);
            vstd::utf8::char_u32_cast(b[0], b[0] as u32);
        }
    }
}

/// Dictionary order is transitive.
pub proof fn lemma_text_le_trans(a: Seq<char>, b: Seq<char>, c: Seq<char>)
    requires
        text_le(a, b),
        text_le(b, c),
    ensures
        text_le(a, c),
    decreases a.len(),
{
    if a.len() > 0 && b.len() > 0 && c.len() > 0 && a[0] == b[0] && b[0] == c[0] {
        lemma_text_le_trans(a.drop_first(), b.drop_first(), c.drop_first());
    }
}

/// Inserting into targets ordered by name leaves them ordered by name, and
/// adds exactly the inserted target.
pub proof fn lemma_inserted_ordered(sorted: Seq<RepoView>, r: RepoView)
    requires
        ordered_by_name(sorted),
    ensures
        ordered_by_name(inserted(sorted, r)),
        inserted(sorted, r).to_multiset() == sorted.to_multiset().insert(r),
        inserted(sorted, r).len() == sorted.len() + 1,
{
    let k = insertion_point(sorted, r);
    lemma_insertion_point(sorted, r);
    lemma_inserted_at(sorted, r, k);
    let out = sorted.insert(k, r);
    assert forall|i: int, j: int| 0 <= i <= j < out.len() implies text_le(
        #[trigger] out[i].name,
        #[trigger] out[j].name,
    ) by {
        if i == j {
            lemma_text_le_refl(out[i].name);
        } else if j < k {
            assert(out[i] == sorted[i] && out[j] == sorted[j]);
        } else if j == k {
            // everything before the insertion point is at most the one just
            // before it, which is at most `r`
            assert(out[i] == sorted[i]);
            assert(text_le(sorted[i].name, sorted[k - 1].name));
            lemma_text_le_trans(sorted[i].name, sorted[k - 1].name, r.name);
        } else if i == k {
            assert(out[j] == sorted[j - 1]);
            lemma_text_le_total(sorted[j - 1].name, r.name);
        } else if i > k {
            assert(out[i] == sorted[i - 1] && out[j] == sorted[j - 1]);
        } else {
            assert(out[i] == sorted[i] && out[j] == sorted[j - 1]);
        }
    }
    vstd::seq_lib::to_multiset_insert(sorted, k, r);
}

/// Where `inserted` puts `r`.
pub open spec fn insertion_point(sorted: Seq<RepoView>, r: RepoView) -> int
    decreases sorted.len(),
{
    if sorted.len() > 0 && !text_le(sorted.last().name, r.name) {
        insertion_point(sorted.drop_last(), r)
    } else {
        sorted.len() as int
    }
}

pub proof fn lemma_insertion_point(sorted: Seq<RepoView>, r: RepoView)
    ensures
        0 <= insertion_point(sorted, r) <= sorted.len(),
        forall|j: int|
            insertion_point(sorted, r) <= j < sorted.len() ==> !text_le(
                (#[trigger] sorted[j]).name,
                r.name,
            ),
        0 < insertion_point(sorted, r) ==> text_le(
            sorted[insertion_point(sorted, r) - 1].name,
            r.name,
        ),
    decreases sorted.len(),
{
    if sorted.len() > 0 && !text_le(sorted.last().name, r.name) {
        let front = sorted.drop_last();
        lemma_insertion_point(front, r);
        let k = insertion_point(front, r);
        assert forall|j: int| k <= j < sorted.len() implies !text_le(
            (#[trigger] sorted[j]).name,
            r.name,
        ) by {
            if j < front.len() {
                assert(front[j] == sorted[j]);
            }
        }
        if k > 0 {
            assert(front[k - 1] == sorted[k - 1]);
        }
    }
}

/// Whether no name of a target has a `/` in it.
pub open spec fn plainly_named(s: Seq<RepoView>) -> bool {
    forall|i: int, j: int|
        0 <= i < s.len() && 0 <= j < s[i].name.len() ==> (#[trigger] s[i].name[j]) != '/'
}

/// The targets of any sections are ordered by name, and there is one for
/// each section.
pub proof fn law_targets_ordered(sections: Seq<SectionView>)
    ensures
        ordered_by_name(targets_of(sections)),
        targets_of(sections).len() == sections.len(),
        targets_of(sections).to_multiset() == sections.map_values(
            |s: SectionView| target_of(s),
        ).to_multiset(),
    decreases sections.len(),
{
    let mapped = sections.map_values(|s: SectionView| target_of(s));
    if sections.len() == 0 {
        assert(mapped =~= Seq::<RepoView>::empty());
    } else {
        let front = sections.drop_last();
        law_targets_ordered(front);
        lemma_inserted_ordered(targets_of(front), target_of(sections.last()));
        let front_mapped = front.map_values(|s: SectionView| target_of(s));
        assert(mapped =~= front_mapped.push(target_of(sections.last())));
        vstd::seq_lib::to_multiset_insert(
            front_mapped,
            front_mapped.len() as int,
            target_of(sections.last()),
        );
        assert(front_mapped.insert(front_mapped.len() as int, target_of(sections.last()))
            =~= front_mapped.push(target_of(sections.last())));
    }
}

/// No target made from a section has a `/` in its name.
pub proof fn law_targets_plainly_named(sections: Seq<SectionView>)
    ensures
        plainly_named(targets_of(sections)),
    decreases sections.len(),
{
    if sections.len() > 0 {
        let front = targets_of(sections.drop_last());
        let r = target_of(sections.last());
        law_targets_plainly_named(sections.drop_last());
        lemma_insertion_point(front, r);
        let k = insertion_point(front, r);
        lemma_inserted_at(front, r, k);
        crate::text::lemma_after_last_is_free(sections.last().header, '/');
        let out = front.insert(k, r);
        assert forall|i: int, j: int| 0 <= i < out.len() && 0 <= j < out[i].name.len() implies (
        #[trigger] out[i].name[j]) != '/' by {
            if i < k {
                assert(out[i] == front[i]);
                assert(front[i].name[j] != '/');
            } else if i > k {
                assert(out[i] == front[i - 1]);
                assert(front[i - 1].name[j] != '/');
            } else {
                assert(out[i] == r);
            }
        }
    }
}

fn target_from(section: Section) -> (repo: Repo)
    ensures
        repo@ == target_of(section@),
{
    let name = string_of(&tail_after(&chars_of(section.header.as_str()), '/'));
    let clone_url = match &section.checkout {
        Some(cmd) => extract_clone_url(cmd.as_str()),
        None => None,
    };
    Repo { name, path: section.path, clone_url }
}

/// Makes the targets of the sections, ordered by name.
pub fn targets_from(sections: Vec<Section>) -> (repos: Vec<Repo>)
    ensures
        repo_views(repos@) == targets_of(section_views(sections@)),
        ordered_by_name(repo_views(repos@)),
        plainly_named(repo_views(repos@)),
        repos.len() == sections.len(),
{
    let ghost all = section_views(sections@);
    proof {
        law_targets_plainly_named(all);
    }
    let mut sections = sections;
    let mut repos: Vec<Repo> = Vec::new();
    let mut rest: Vec<Section> = Vec::new();
    // take the sections from the back, so that they can be moved out
    while sections.len() > 0
        invariant
            rows_rev(section_views(rest@)) == all.skip(sections.len() as int),
            rest.len() + sections.len() == all.len(),
            section_views(sections@) == all.take(sections.len() as int),
            sections.len() <= all.len(),
        decreases sections.len(),
    {
        let ghost before = section_views(sections@);
        let last = sections.pop().unwrap();
        proof {
            let n = sections.len() as int;
            assert(section_views(sections@) =~= all.take(n));
            assert(last@ == before[n]);
            assert(last@ == all[n]);
            assert(section_views(rest@.push(last)).len() == rest.len() + 1);
            assert(rows_rev(section_views(rest@.push(last))) =~= all.skip(n)) by {
                let r0 = section_views(rest@);
                let r1 = section_views(rest@.push(last));
                assert(r1 =~= r0.push(last@));
                assert(rows_rev(r0) =~= all.skip(n + 1));
                let lhs = rows_rev(r1);
                let rhs = all.skip(n);
                assert(lhs.len() == rhs.len());
                assert forall|k: int| 0 <= k < lhs.len() implies lhs[k] == rhs[k] by {
                    if k == 0 {
                        assert(lhs[0] == r1[r1.len() - 1]);
                    } else {
                        assert(lhs[k] == r1[r1.len() - 1 - k]);
                        assert(rows_rev(r0)[k - 1] == r0[r0.len() - 1 - (k - 1)]);
                        assert(all.skip(n + 1)[k - 1] == all[n + k]);
                    }
                }
            }
        }
        rest.push(last);
    }
    proof {
        assert(all.skip(0) =~= all);
        assert(rows_rev(section_views(rest@)) =~= all);
        assert(all.take(0) =~= Seq::<SectionView>::empty());
        assert(repo_views(repos@) =~= targets_of(all.take(0)));
    }
    let ghost total = all.len();
    while rest.len() > 0
        invariant
            total == all.len(),
            rest.len() <= total,
            rows_rev(section_views(rest@)) == all.skip(total - rest.len()),
            repo_views(repos@) == targets_of(all.take(total - rest.len())),
            ordered_by_name(repo_views(repos@)),
            repos.len() == total - rest.len(),
        decreases rest.len(),
    {
        let ghost done = (total - rest.len()) as int;
        let ghost r0 = section_views(rest@);
        let section = rest.pop().unwrap();
        proof {
            assert(section@ == r0[r0.len() - 1]);
            assert(rows_rev(r0)[0] == r0[r0.len() - 1]);
            assert(all.skip(done)[0] == all[done]);
            assert(section@ == all[done]);
            let r1 = section_views(rest@);
            assert(r1 =~= r0.drop_last());
            assert(rows_rev(r1) =~= all.skip(done + 1)) by {
                let lhs = rows_rev(r1);
                let rhs = all.skip(done + 1);
                assert(lhs.len() == rhs.len());
                assert forall|k: int| 0 <= k < lhs.len() implies lhs[k] == rhs[k] by {
                    assert(lhs[k] == r1[r1.len() - 1 - k]);
                    assert(rows_rev(r0)[k + 1] == r0[r0.len() - 1 - (k + 1)]);
                    assert(all.skip(done)[k + 1] == all[done + k + 1]);
                }
            }
            assert(all.take(done + 1).drop_last() =~= all.take(done));
            assert(all.take(done + 1).last() == all[done]);
        }
        let repo = target_from(section);
        let ghost sorted = repo_views(repos@);
        let name = chars_of(repo.name.as_str());
        let mut pos: usize = repos.len();
        while pos > 0 && !precedes_or_equals(&chars_of(repos[pos - 1].name.as_str()), &name)
            invariant
                pos <= repos.len(),
                sorted == repo_views(repos@),
                name@ == repo@.name,
                forall|j: int| pos <= j < repos.len() ==> !text_le((#[trigger] sorted[j]).name, repo@.name),
            decreases pos,
        {
            pos = pos - 1;
        }
        proof {
            lemma_inserted_at(sorted, repo@, pos as int);
            lemma_inserted_ordered(sorted, repo@);
        }
        repos.insert(pos, repo);
        assert(repo_views(repos@) =~= sorted.insert(pos as int, repo@));
    }
    proof {
        assert(all.take(total as int) =~= all);
    }
    repos
}

/// `s` back to front.
pub open spec fn rows_rev(s: Seq<SectionView>) -> Seq<SectionView> {
    Seq::new(s.len(), |i: int| s[s.len() - 1 - i])
}

// ---------------------------------------------------------------------------
// Reading the configuration text
// ---------------------------------------------------------------------------

/// Length from which on a configuration text is too long for the parser:
/// a text has no more lines than characters, and the parser counts lines in
/// 32 bits.
pub const MAX_CONFIG_CHARS: usize = 0x7fff_fffe;

/// The parsed configuration: an outside collection that this crate reads
/// through the four functions below only.
#[verifier::external_type_specification]
#[verifier::external_body]
pub struct ExIni(Ini);

/// What a parsed configuration holds: under each section's header, the
/// values under the section's keys. A key without a value holds `None`.
pub uninterp spec fn ini_entries(ini: Ini) -> Map<Seq<char>, Map<Seq<char>, Option<Seq<char>>>>;

/// Whether a configuration has the settings that `Ini::new` gives it.
pub uninterp spec fn ini_default(ini: Ini) -> bool;

/// What `Ini::read` makes of a text under the default settings: the
/// entries it stores, or the message it refuses the text with.
pub uninterp spec fn ini_parse(input: Seq<char>) -> Result<
    Map<Seq<char>, Map<Seq<char>, Option<Seq<char>>>>,
    Seq<char>,
>;

/// What `Ini::get` finds under `key` in `section`, under the default
/// settings, in a configuration that holds `entries`.
pub uninterp spec fn ini_lookup(
    entries: Map<Seq<char>, Map<Seq<char>, Option<Seq<char>>>>,
    section: Seq<char>,
    key: Seq<char>,
) -> Option<Seq<char>>;

/// The view of a value that may be missing.
pub open spec fn value_view(value: Option<String>) -> Option<Seq<char>> {
    match value {
        Some(v) => Some(v@),
        None => None,
    }
}

/// The views of a sequence of strings.
pub open spec fn header_texts(v: Seq<String>) -> Seq<Seq<char>> {
    Seq::new(v.len(), |i: int| v[i]@)
}

/// `Ini::new`: a configuration with the default settings that holds
/// nothing.
pub assume_specification[ Ini::new ]() -> (fresh: Ini)
    ensures
        ini_default(fresh),
        ini_entries(fresh).dom() == Set::<Seq<char>>::empty(),
;

/// `Ini::read`: parses `input` and, if the text is well formed, replaces
/// what `ini` holds by what it parsed; a malformed text leaves `ini` as it
/// was and is reported by a message. The settings stay as they are. Under
/// the default settings the outcome is a function of the text alone, named
/// `ini_parse`. The parser numbers the lines of the text with a 32-bit
/// counter, so texts too long for that counter are left out.
#[verifier::external_body]
pub(crate) fn ini_read(ini: &mut Ini, input: String) -> (read: Result<(), String>)
    requires
        input@.len() < MAX_CONFIG_CHARS,
    ensures
        ini_default(*final(ini)) == ini_default(*old(ini)),
        ini_default(*old(ini)) ==> match read {
            Ok(_) => ini_parse(input@) matches Ok(entries) && ini_entries(*final(ini)) == entries,
            Err(why) => ini_parse(input@) matches Err(message) && message == why@ && ini_entries(
                *final(ini),
            ) == ini_entries(*old(ini)),
        },
{
    match ini.read(input) {
        Ok(_) => Ok(()),
        Err(why) => Err(why),
    }
}

/// `Ini::sections`: the headers of the sections that `ini` holds, each
/// once, in no particular order.
pub assume_specification[ Ini::sections ](ini: &Ini) -> (headers: Vec<String>)
    ensures
        header_texts(headers@).no_duplicates(),
        header_texts(headers@).to_set() == ini_entries(*ini).dom(),
;

/// `Ini::get`: the value that `ini` holds under `key` in `section`, if
/// there is one. Under the default settings it is a function of what `ini`
/// holds and of the two names alone, named `ini_lookup`.
pub assume_specification[ Ini::get ](ini: &Ini, section: &str, key: &str) -> (value: Option<
    String,
>)
    ensures
        ini_default(*ini) ==> value_view(value) == ini_lookup(ini_entries(*ini), section@, key@),
;

/// The headers of the sections, in order.
pub open spec fn headers_of(sections: Seq<SectionView>) -> Seq<Seq<char>> {
    Seq::new(sections.len(), |i: int| sections[i].header)
}

/// Whether `sections` are the sections of `entries`, each once and in some
/// order, each with the value that the parser finds under its `checkout`
/// key and with its header adjoined to `base` as its location.
pub open spec fn sections_of(
    sections: Seq<SectionView>,
    entries: Map<Seq<char>, Map<Seq<char>, Option<Seq<char>>>>,
    base: PathBuf,
) -> bool {
    &&& headers_of(sections).no_duplicates()
    &&& headers_of(sections).to_set() == entries.dom()
    &&& forall|i: int|
        0 <= i < sections.len() ==> (#[trigger] sections[i]).checkout == ini_lookup(
            entries,
            sections[i].header,
            "checkout"@,
        ) && path_units(sections[i].path) == path_join(path_units(base), sections[i].header)
}

/// Whether `repos` are the targets of the sections of `entries`, taken in
/// some order and then ordered by name.
pub open spec fn targets_in(
    repos: Seq<RepoView>,
    entries: Map<Seq<char>, Map<Seq<char>, Option<Seq<char>>>>,
    base: PathBuf,
) -> bool {
    exists|sections: Seq<SectionView>|
        sections_of(sections, entries, base) && #[trigger] targets_of(sections) == repos
}

/// Reads the targets from the text of a configuration. A text that the
/// parser refuses gives the parser's message. Any other text gives one
/// target for each section that the parser found, named and cloned as
/// `target_of` says, ordered by name. The location of a target is its
/// section's header adjoined to `base_dir`. The text must be shorter than
/// `MAX_CONFIG_CHARS` characters.
pub fn parse_config(content: &str, base_dir: &PathBuf) -> (parsed: Result<Vec<Repo>, String>)
    requires
        content@.len() < MAX_CONFIG_CHARS,
    ensures
        match parsed {
            Ok(repos) => {
                &&& ini_parse(content@) matches Ok(entries) && targets_in(
                    repo_views(repos@),
                    entries,
                    *base_dir,
                ) && repos.len() == entries.dom().len()
                &&& ordered_by_name(repo_views(repos@))
                &&& plainly_named(repo_views(repos@))
            },
            Err(why) => ini_parse(content@) matches Err(message) && message == why@,
        },
{
    let mut ini = Ini::new();
    match ini_read(&mut ini, content.to_owned()) {
        Err(why) => Err(why),
        Ok(_) => {
            let ghost entries = ini_entries(ini);
            let headers = ini.sections();
            let mut sections: Vec<Section> = Vec::new();
            let mut i: usize = 0;
            while i < headers.len()
                invariant
                    i <= headers.len(),
                    sections.len() == i,
                    ini_default(ini),
                    ini_entries(ini) == entries,
                    forall|k: int|
                        0 <= k < i ==> (#[trigger] sections@[k])@.header == headers@[k]@
                            && sections@[k]@.checkout == ini_lookup(
                            entries,
                            headers@[k]@,
                            "checkout"@,
                        ) && path_units(sections@[k]@.path) == path_join(
                            path_units(*base_dir),
                            headers@[k]@,
                        ),
                decreases headers.len() - i,
            {
                let header = headers[i].clone();
                let path = join_path(base_dir, header.as_str());
                let checkout = ini.get(header.as_str(), "checkout");
                sections.push(Section { header, path, checkout });
                i = i + 1;
            }
            let ghost found = section_views(sections@);
            proof {
                assert(headers_of(found) =~= header_texts(headers@));
                header_texts(headers@).unique_seq_to_set();
                assert(sections_of(found, entries, *base_dir));
            }
            let repos = targets_from(sections);
            assert(targets_of(found) == repo_views(repos@));
            Ok(repos)
        },
    }
}

// ---------------------------------------------------------------------------
// Registering a target
// ---------------------------------------------------------------------------

/// The header line of a section.
pub open spec fn header_line(section: Seq<char>) -> Seq<char> {
    "["@ + section + "]"@
}

/// The text that registers a target: a blank line, the section's header and
/// its checkout command.
pub open spec fn entry_text(section: Seq<char>, url: Seq<char>, name: Seq<char>) -> Seq<char> {
    "\n["@ + section + "]\ncheckout = git clone '"@ + url + "' '"@ + name + "'\n"@
}

/// Whether the configuration text `existing` already has the section.
pub fn is_registered(existing: &str, section: &str) -> (b: bool)
    ensures
        b == crate::text::contains(existing@, header_line(section@)),
{
    let mut header = chars_of("[");
    crate::text::push_str(&mut header, section);
    crate::text::push_str(&mut header, "]");
    crate::text::has_infix(&chars_of(existing), &header)
}

/// The text to append to the configuration to register a target.
pub fn registration_entry(section: &str, url: &str, name: &str) -> (entry: String)
    ensures
        entry@ == entry_text(section@, url@, name@),
{
    let mut text = chars_of("\n[");
    crate::text::push_str(&mut text, section);
    crate::text::push_str(&mut text, "]\ncheckout = git clone '");
    crate::text::push_str(&mut text, url);
    crate::text::push_str(&mut text, "' '");
    crate::text::push_str(&mut text, name);
    crate::text::push_str(&mut text, "'\n");
    string_of(&text)
}

} // verus!
