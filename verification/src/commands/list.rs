use crate::catalog::Catalog;
use crate::error::CommandError;
use crate::order::{in_order, sorted};
use crate::text::{contains, occurs_in, texts};
use crate::web::Release;
use vstd::prelude::*;
use vstd::string::{StringExecFns, StringSliceAdditionalSpecFns};
use vstd::utf8::encode_utf8;

verus! {

/// Lists the templates of a release with the versions that each is
/// offered for.
#[derive(Debug)]
pub struct ListSubcommand {
    /// What the name of a template must contain to be listed.
    pub name: Option<String>,
}

/// The templates that a search selects: all of them where nothing is
/// searched for, else those whose name contains the text searched for.
pub open spec fn matching(c: Catalog, query: Option<Seq<char>>) -> Set<Seq<char>> {
    match query {
        Some(q) => c.dom().filter(|t: Seq<char>| occurs_in(q, t)),
        None => c.dom(),
    }
}

/// The length of a text in bytes.
pub open spec fn byte_len(text: Seq<char>) -> nat {
    encode_utf8(text).len()
}

/// Whether `w` is the greatest length in bytes among `names`, or 0 where
/// there is none.
pub open spec fn is_widest(names: Set<Seq<char>>, w: nat) -> bool {
    &&& forall|t: Seq<char>| names.contains(t) ==> byte_len(t) <= w
    &&& w > 0 ==> exists|t: Seq<char>| names.contains(t) && byte_len(t) == w
}

/// The greatest length in bytes among `names`.
pub open spec fn widest(names: Set<Seq<char>>) -> nat {
    choose|w: nat| is_widest(names, w)
}

/// A run of `n` spaces.
pub open spec fn spaces(n: nat) -> Seq<char> {
    Seq::new(n, |i: int| ' ')
}

/// The texts of `parts` in a row, with `separator` between each two.
pub open spec fn joined(parts: Seq<Seq<char>>, separator: Seq<char>) -> Seq<char>
    decreases parts.len(),
{
    if parts.len() == 0 {
        Seq::empty()
    } else if parts.len() == 1 {
        parts[0]
    } else {
        joined(parts.drop_last(), separator) + separator + parts.last()
    }
}

/// The line of a template: its name and a colon, spaces up to the column
/// that the longest name of the catalog sets, and the template's versions
/// in ascending order.
pub open spec fn line_of(c: Catalog, template: Seq<char>) -> Seq<char> {
    template + ": "@ + spaces((widest(c.dom()) - byte_len(template)) as nat) + joined(
        in_order(c[template].dom()),
        ", "@,
    )
}

/// What listing the catalog `c` gives: a line for each template selected,
/// by ascending name.
pub open spec fn listing(c: Catalog, query: Option<Seq<char>>) -> Result<
    Seq<Seq<char>>,
    CommandError,
> {
    if matching(c, query).is_empty() {
        Err(CommandError::NoMatchingTemplates)
    } else {
        Ok(in_order(matching(c, query)).map_values(|t: Seq<char>| line_of(c, t)))
    }
}

/// A set of names has one greatest length.
proof fn lemma_widest(names: Set<Seq<char>>, w: nat)
    requires
        is_widest(names, w),
    ensures
        widest(names) == w,
{
    let v = widest(names);
    assert(is_widest(names, v));
    if v < w {
        let t = choose|t: Seq<char>| names.contains(t) && byte_len(t) == w;
        assert(byte_len(t) <= v);
    } else if w < v {
        let t = choose|t: Seq<char>| names.contains(t) && byte_len(t) == v;
        assert(byte_len(t) <= w);
    }
}

/// The greatest length in bytes among `names`.
fn widest_of(names: &Vec<String>) -> (w: usize)
    ensures
        w == widest(texts(names@).to_set()),
        is_widest(texts(names@).to_set(), w as nat),
{
    let ghost all = texts(names@);
    let mut w: usize = 0;
    let mut i: usize = 0;
    while i < names.len()
        invariant
            i <= names.len(),
            all == texts(names@),
            forall|k: int| 0 <= k < i ==> byte_len(all[k]) <= w,
            w > 0 ==> exists|k: int| 0 <= k < i && byte_len(all[k]) == w,
        decreases names.len() - i,
    {
        let len = names[i].as_str().as_bytes().len();
        if len > w {
            w = len;
            assert(byte_len(all[i as int]) == w);
        }
        i += 1;
    }
    proof {
        assert forall|t: Seq<char>| all.to_set().contains(t) implies byte_len(t) <= w by {
            let k = choose|k: int| 0 <= k < all.len() && all[k] == t;
            assert(byte_len(all[k]) <= w);
        }
        if w > 0 {
            let k = choose|k: int| 0 <= k < i && byte_len(all[k]) == w;
            assert(all.to_set().contains(all[k]));
        }
        lemma_widest(all.to_set(), w as nat);
    }
    w
}

/// The names among `names` that contain `query`.
fn containing(names: &Vec<String>, query: &str) -> (found: Vec<String>)
    ensures
        texts(found@).to_set() == texts(names@).to_set().filter(
            |t: Seq<char>| occurs_in(query@, t),
        ),
{
    let ghost all = texts(names@);
    let ghost wanted = |t: Seq<char>| occurs_in(query@, t);
    let mut found: Vec<String> = Vec::new();
    let mut i: usize = 0;
    while i < names.len()
        invariant
            i <= names.len(),
            all == texts(names@),
            wanted == |t: Seq<char>| occurs_in(query@, t),
            forall|k: int| 0 <= k < found@.len() ==> all.contains(#[trigger] texts(found@)[k])
                && wanted(texts(found@)[k]),
            forall|k: int|
                0 <= k < i && wanted(all[k]) ==> texts(found@).contains(#[trigger] all[k]),
        decreases names.len() - i,
    {
        if contains(names[i].as_str(), query) {
            let ghost before = texts(found@);
            found.push(names[i].clone());
            proof {
                let after = texts(found@);
                assert(after =~= before.push(all[i as int]));
                assert forall|k: int| 0 <= k < i && wanted(all[k]) implies after.contains(
                    #[trigger] all[k],
                ) by {
                    let m = choose|m: int| 0 <= m < before.len() && before[m] == all[k];
                    assert(after[m] == all[k]);
                }
                assert(after[before.len() as int] == all[i as int]);
            }
        }
        i += 1;
    }
    proof {
        let got = texts(found@);
        assert forall|t: Seq<char>| got.to_set().contains(t) == all.to_set().filter(
            wanted,
        ).contains(t) by {
            if got.contains(t) {
                let k = choose|k: int| 0 <= k < got.len() && got[k] == t;
                assert(all.contains(got[k]) && wanted(got[k]));
            }
            if all.contains(t) && wanted(t) {
                let k = choose|k: int| 0 <= k < all.len() && all[k] == t;
                assert(got.contains(all[k]));
            }
        }
        assert(got.to_set() =~= all.to_set().filter(wanted));
    }
    found
}

/// Appends `n` spaces to `line`.
fn pad(line: &mut String, n: usize)
    ensures
        final(line)@ == old(line)@ + spaces(n as nat),
{
    let mut i: usize = 0;
    assert(line@ =~= old(line)@ + spaces(0));
    while i < n
        invariant
            i <= n,
            line@ == old(line)@ + spaces(i as nat),
        decreases n - i,
    {
        proof {
            reveal_strlit(" ");
        }
        line.append(" ");
        i += 1;
        assert(line@ =~= old(line)@ + spaces(i as nat));
    }
}

/// Appends the texts of `parts` to `line`, with `separator` between each
/// two.
fn append_joined(line: &mut String, parts: &Vec<String>, separator: &str)
    ensures
        final(line)@ == old(line)@ + joined(texts(parts@), separator@),
{
    let ghost all = texts(parts@);
    let mut i: usize = 0;
    assert(line@ =~= old(line)@ + joined(all.take(0), separator@));
    while i < parts.len()
        invariant
            i <= parts.len(),
            all == texts(parts@),
            line@ == old(line)@ + joined(all.take(i as int), separator@),
        decreases parts.len() - i,
    {
        let ghost so_far = line@;
        if i > 0 {
            line.append(separator);
        }
        line.append(parts[i].as_str());
        proof {
            let more = all.take(i + 1);
            assert(more.drop_last() =~= all.take(i as int));
            assert(more.last() == all[i as int]);
            if i == 0 {
                assert(joined(all.take(0), separator@) =~= Seq::empty());
                assert(line@ =~= old(line)@ + joined(more, separator@));
            } else {
                assert(line@ =~= old(line)@ + joined(more, separator@));
            }
        }
        i += 1;
    }
    assert(all.take(i as int) =~= all);
}

impl ListSubcommand {
    /// The text searched for, if any.
    pub open spec fn query(&self) -> Option<Seq<char>> {
        match self.name {
            Some(q) => Some(q@),
            None => None,
        }
    }

    /// The lines to print: one for each template selected, by ascending
    /// name, each with the template's versions in ascending order behind
    /// a column that the longest name of the catalog sets.
    pub fn lines(&self, release: &Release) -> (r: Result<Vec<String>, CommandError>)
        ensures
            match r {
                Ok(lines) => listing(release@, self.query()) == Ok::<
                    Seq<Seq<char>>,
                    CommandError,
                >(texts(lines@)),
                Err(e) => listing(release@, self.query()) == Err::<Seq<Seq<char>>, CommandError>(
                    e,
                ),
            },
    {
        let templates = release.get_templates();
        let width = widest_of(&templates);
        let matches = match &self.name {
            Some(query) => containing(&templates, query.as_str()),
            None => templates,
        };
        assert(texts(matches@).to_set() == matching(release@, self.query()));
        if matches.len() == 0 {
            assert(texts(matches@).to_set() =~= Set::empty());
            return Err(CommandError::NoMatchingTemplates);
        }
        assert(texts(matches@).to_set().contains(texts(matches@)[0]));
        let names = sorted(&matches);
        let ghost selected = texts(names@);
        let mut lines: Vec<String> = Vec::new();
        let mut i: usize = 0;
        while i < names.len()
            invariant
                i <= names.len(),
                selected == texts(names@),
                selected == in_order(matching(release@, self.query())),
                selected.to_set() == matching(release@, self.query()),
                width == widest(release@.dom()),
                is_widest(release@.dom(), width as nat),
                lines@.len() == i,
                forall|k: int|
                    0 <= k < i ==> (#[trigger] texts(lines@)[k]) == line_of(
                        release@,
                        selected[k],
                    ),
            decreases names.len() - i,
        {
            let name = names[i].as_str();
            assert(selected.to_set().contains(selected[i as int]));
            assert(release@.contains_key(name@));
            let versions = match release.get_template_versions(name) {
                Ok(versions) => sorted(&versions),
                Err(e) => {
                    return Err(CommandError::Catalog(e));
                },
            };
            let line = format_line(name, &versions, width);
            let ghost before = texts(lines@);
            lines.push(line);
            assert(texts(lines@) =~= before.push(line@));
            i += 1;
        }
        assert(texts(lines@) =~= selected.map_values(|t: Seq<char>| line_of(release@, t)));
        Ok(lines)
    }
}

/// One line: the name and a colon, the spaces that `width` leaves, and
/// the versions with commas between them.
fn format_line(template: &str, versions: &Vec<String>, width: usize) -> (line: String)
    requires
        byte_len(template@) <= width,
    ensures
        line@ == template@ + ": "@ + spaces((width - byte_len(template@)) as nat) + joined(
            texts(versions@),
            ", "@,
        ),
{
    let mut line = String::new();
    line.append(template);
    line.append(": ");
    assert(line@ =~= template@ + ": "@);
    pad(&mut line, width - template.as_bytes().len());
    append_joined(&mut line, versions, ", ");
    line
}

} // verus!
