//! The decisions of the command-line tool: where the wordnet is, the defaults it offers, and
//! the settings file it writes for a new project.

use vstd::prelude::*;
use crate::settings::{join_path, path_join};
use crate::text::{chars_of, push_char};
use crate::web::LexiconMetadata;

verus! {

/// A character escaped for a TOML basic string.
pub open spec fn toml_escape_char(c: char) -> Seq<char> {
    if c == '\\' {
        seq!['\\', '\\']
    } else if c == '"' {
        seq!['\\', '"']
    } else {
        seq![c]
    }
}

/// A value escaped for a TOML basic string: backslashes and double quotes get a backslash.
pub open spec fn toml_escaped(s: Seq<char>) -> Seq<char>
    decreases s.len(),
{
    if s.len() == 0 {
        seq![]
    } else {
        toml_escaped(s.drop_last()) + toml_escape_char(s.last())
    }
}

/// Escapes a value for a TOML basic string (`"..."`).
pub fn toml_escape(s: &str) -> (r: String)
    ensures
        r@ == toml_escaped(s@),
{
    let cs = chars_of(s);
    let mut r = String::new();
    let mut i: usize = 0;
    while i < cs.len()
        invariant
            cs@ == s@,
            i <= cs.len(),
            r@ == toml_escaped(cs@.take(i as int)),
        decreases cs.len() - i,
    {
        let c = cs[i];
        proof {
            assert(cs@.take(i + 1).drop_last() =~= cs@.take(i as int));
        }
        if c == '\\' {
            push_char(&mut r, '\\');
            push_char(&mut r, '\\');
        } else if c == '"' {
            push_char(&mut r, '\\');
            push_char(&mut r, '"');
        } else {
            push_char(&mut r, c);
        }
        assert(r@ =~= toml_escaped(cs@.take(i as int)) + toml_escape_char(c));
        i += 1;
    }
    assert(cs@.take(cs@.len() as int) =~= cs@);
    r
}

/// One `key = "value"` line of a settings file.
pub open spec fn toml_line(key: Seq<char>, value: Seq<char>) -> Seq<char> {
    key + " = \""@ + toml_escaped(value) + "\"\n"@
}

/// The settings file of a new project: its database and source, then its id prefix, and its
/// name, contact and homepage where the metadata has them.
pub open spec fn settings_toml(m: LexiconMetadata) -> Seq<char> {
    "database = \"wordnet.db\"\n"@ + "wordnet_source = \"src/yaml/\"\n"@ + toml_line("id_prefix"@, m.id_prefix@)
        + (if m.label@.len() > 0 {
        toml_line("project_name"@, m.label@)
    } else {
        seq![]
    }) + (match m.email {
        Some(e) => toml_line("contact_email"@, e@),
        None => seq![],
    }) + (match m.url {
        Some(u) => toml_line("source_url"@, u@),
        None => seq![],
    })
}

fn push_line(out: &mut String, key: &str, value: &str)
    ensures
        final(out)@ == old(out)@ + toml_line(key@, value@),
{
    out.append(key);
    out.append(" = \"");
    let v = toml_escape(value);
    out.append(v.as_str());
    out.append("\"\n");
}

/// A minimal settings file for a freshly created or imported project, from its metadata.
pub fn generate_settings_toml(metadata: &LexiconMetadata) -> (r: String)
    ensures
        r@ == settings_toml(*metadata),
{
    let mut out = String::new();
    out.append("database = \"wordnet.db\"\n");
    out.append("wordnet_source = \"src/yaml/\"\n");
    push_line(&mut out, "id_prefix", metadata.id_prefix.as_str());
    if !metadata.label.as_str().is_empty() {
        push_line(&mut out, "project_name", metadata.label.as_str());
    }
    if let Some(email) = &metadata.email {
        push_line(&mut out, "contact_email", email.as_str());
    }
    if let Some(url) = &metadata.url {
        push_line(&mut out, "source_url", url.as_str());
    }
    assert(out@ =~= settings_toml(*metadata));
    out
}

/// The prompt for a value that has a default: `Prompt [default]: `.
pub fn prompt_with_default(prompt: &str, default: &str) -> (r: String)
    ensures
        r@ == prompt@ + " ["@ + default@ + "]: "@,
{
    let mut r = prompt.to_owned();
    r.append(" [");
    r.append(default);
    r.append("]: ");
    r
}

/// The value of a prompt with a default: the entered (already trimmed) value, or the default
/// when nothing was entered.
pub fn input_with_default(entered: String, default: &str) -> (r: String)
    ensures
        r@ == if entered@.len() == 0 {
            default@
        } else {
            entered@
        },
{
    if entered.as_str().is_empty() {
        default.to_owned()
    } else {
        entered
    }
}

/// The prompt for an optional value: `Prompt (optional): `.
pub fn prompt_optional(prompt: &str) -> (r: String)
    ensures
        r@ == prompt@ + " (optional): "@,
{
    let mut r = prompt.to_owned();
    r.append(" (optional): ");
    r
}

/// The value of an optional prompt: `None` when nothing was entered.
pub fn input_optional(entered: String) -> (r: Option<String>)
    ensures
        match r {
            Some(v) => entered@.len() > 0 && v@ == entered@,
            None => entered@.len() == 0,
        },
{
    if entered.as_str().is_empty() {
        None
    } else {
        Some(entered)
    }
}

/// The root of the wordnet: the given directory, or the working directory.
pub fn wordnet_root(wordnet: &Option<String>) -> (r: String)
    ensures
        r@ == match wordnet {
            Some(w) => w@,
            None => "."@,
        },
{
    match wordnet {
        Some(w) => w.clone(),
        None => String::from_str("."),
    }
}

/// Where the WNDB license file would be: `WNDB_License.txt` at the wordnet's root.
pub fn license_file_candidate(wordnet: &Option<String>) -> (r: String)
    ensures
        r@ == path_join(
            match wordnet {
                Some(w) => w@,
                None => "."@,
            },
            "WNDB_License.txt"@,
        ),
{
    let root = wordnet_root(wordnet);
    join_path(root.as_str(), "WNDB_License.txt")
}

/// The license file to export with: the candidate, when it is a file.
pub fn default_license_file(wordnet: &Option<String>, candidate_is_file: bool) -> (r: Option<String>)
    ensures
        match r {
            Some(p) => candidate_is_file && p@ == path_join(
                match wordnet {
                    Some(w) => w@,
                    None => "."@,
                },
                "WNDB_License.txt"@,
            ),
            None => !candidate_is_file,
        },
{
    if candidate_is_file {
        Some(license_file_candidate(wordnet))
    } else {
        None
    }
}

/// Where the sense orders would be: `src/sense-orders.csv` under the wordnet's root.
pub fn sense_orders_candidate(wordnet: &Option<String>) -> (r: String)
    ensures
        r@ == path_join(
            path_join(
                match wordnet {
                    Some(w) => w@,
                    None => "."@,
                },
                "src"@,
            ),
            "sense-orders.csv"@,
        ),
{
    let root = wordnet_root(wordnet);
    let src = join_path(root.as_str(), "src");
    join_path(src.as_str(), "sense-orders.csv")
}

/// The sense orders to export with: the candidate, when it is a file.
pub fn default_sense_orders(wordnet: &Option<String>, candidate_is_file: bool) -> (r: Option<String>)
    ensures
        match r {
            Some(p) => candidate_is_file && p@ == path_join(
                path_join(
                    match wordnet {
                        Some(w) => w@,
                        None => "."@,
                    },
                    "src"@,
                ),
                "sense-orders.csv"@,
            ),
            None => !candidate_is_file,
        },
{
    if candidate_is_file {
        Some(sense_orders_candidate(wordnet))
    } else {
        None
    }
}

/// Whether a directory looks like a YAML wordnet source: it has `entries-a.yaml`, or (for a
/// project with no entries yet) `frames.yaml`.
pub fn looks_like_wordnet_dir(has_entries_a: bool, has_frames: bool) -> (r: bool)
    ensures
        r == (has_entries_a || has_frames),
{
    has_entries_a || has_frames
}

/// Where to load the wordnet from. With a given directory: the directory itself if it looks
/// like a wordnet, else its `src/yaml/`, else an error. Without one: `./src/yaml/`, else `./`,
/// else an error. The flags tell which candidates look like a wordnet.
pub fn locate_wordnet_dir(
    path: &Option<String>,
    path_looks: bool,
    path_src_yaml_looks: bool,
    cwd_src_yaml_looks: bool,
    cwd_looks: bool,
) -> (r: Result<String, String>)
    ensures
        match path {
            Some(p) => if path_looks {
                r matches Ok(d) && d@ == p@
            } else if path_src_yaml_looks {
                r matches Ok(d) && d@ == path_join(p@, "src/yaml/"@)
            } else {
                r matches Err(e) && e@ == "Could not find WordNet at "@ + p@
            },
            None => if cwd_src_yaml_looks {
                r matches Ok(d) && d@ == "./src/yaml/"@
            } else if cwd_looks {
                r matches Ok(d) && d@ == "./"@
            } else {
                r matches Err(e) && e@ == "Please specify WordNet home"@
            },
        },
{
    match path {
        Some(p) => if path_looks {
            Ok(p.clone())
        } else if path_src_yaml_looks {
            Ok(join_path(p.as_str(), "src/yaml/"))
        } else {
            let mut e = String::from_str("Could not find WordNet at ");
            e.append(p.as_str());
            Err(e)
        },
        None => if cwd_src_yaml_looks {
            Ok(String::from_str("./src/yaml/"))
        } else if cwd_looks {
            Ok(String::from_str("./"))
        } else {
            Err(String::from_str("Please specify WordNet home"))
        },
    }
}

/// The RDF serialisations the exporter writes.
#[derive(Debug, Clone, Copy, PartialEq, Eq)]
pub enum RdfSyntax {
    Turtle,
    RdfXml,
}

impl RdfSyntax {
    /// The name of the syntax on the command line.
    pub fn to_string(&self) -> (r: String)
        ensures
            r@ == match *self {
                RdfSyntax::Turtle => "turtle"@,
                RdfSyntax::RdfXml => "rdf-xml"@,
            },
    {
        match self {
            RdfSyntax::Turtle => String::from_str("turtle"),
            RdfSyntax::RdfXml => String::from_str("rdf-xml"),
        }
    }
}


/// The values paired with key `k`, in order.
pub open spec fn values_for<B>(pairs: Seq<(String, B)>, k: Seq<char>) -> Seq<B>
    decreases pairs.len(),
{
    if pairs.len() == 0 {
        seq![]
    } else {
        values_for(pairs.drop_last(), k) + if pairs.last().0@ == k {
            seq![pairs.last().1]
        } else {
            seq![]
        }
    }
}

/// Groups the values of `pairs` by key: one entry per key, in the order the keys are first met,
/// holding that key's values in order.
pub fn group_by_key<B>(pairs: Vec<(String, B)>) -> (r: Vec<(String, Vec<B>)>)
    ensures
        forall|a: int, b: int| 0 <= a < b < r@.len() ==> (#[trigger] r@[a]).0@ != (#[trigger] r@[b]).0@,
        forall|q: int| 0 <= q < r@.len() ==> (#[trigger] r@[q]).1@ == values_for(pairs@, r@[q].0@),
        forall|k: Seq<char>| #[trigger] values_for(pairs@, k).len() > 0 ==> exists|q: int| 0 <= q < r@.len() && (#[trigger] r@[q]).0@ == k,
{
    let ghost all = pairs@;
    let mut out: Vec<(String, Vec<B>)> = Vec::new();
    for pair in it: pairs.into_iter()
        invariant
            it.seq() == all,
            forall|a: int, b: int| 0 <= a < b < out@.len() ==> (#[trigger] out@[a]).0@ != (#[trigger] out@[b]).0@,
            forall|q: int| 0 <= q < out@.len() ==> (#[trigger] out@[q]).1@ == values_for(all.take(it.index() as int), out@[q].0@),
            forall|k: Seq<char>| #[trigger] values_for(all.take(it.index() as int), k).len() > 0 ==> exists|q: int| 0 <= q < out@.len() && (#[trigger] out@[q]).0@ == k,
    {
        let ghost i = it.index() as int;
        let ghost pg = pair;
        proof {
            assert(pg == all[i]);
            assert(all.take(i + 1).drop_last() =~= all.take(i));
            assert(all.take(i + 1).last() == pg);
        }
        let (a, b) = pair;
        let mut p: usize = 0;
        while p < out.len() && out[p].0 != a
            invariant
                p <= out@.len(),
                forall|q: int| 0 <= q < p ==> (#[trigger] out@[q]).0@ != a@,
            decreases out@.len() - p,
        {
            p += 1;
        }
        let ghost before = out@;
        if p < out.len() {
            out[p].1.push(b);
        } else {
            let mut v: Vec<B> = Vec::new();
            v.push(b);
            out.push((a, v));
        }
        proof {
            assert forall|q: int| 0 <= q < out@.len() implies (#[trigger] out@[q]).1@ == values_for(all.take(i + 1), out@[q].0@) by {
                let c = out@[q].0@;
                assert(values_for(all.take(i + 1), c) == values_for(all.take(i), c) + if pg.0@ == c {
                    seq![pg.1]
                } else {
                    seq![]
                });
                if q < before.len() {
                    assert(out@[q].0 == before[q].0);
                    if q == p as int {
                        assert(out@[q].1@ =~= before[q].1@.push(pg.1));
                    } else {
                        assert(out@[q].1 == before[q].1);
                        assert(values_for(all.take(i), c) + seq![] =~= values_for(all.take(i), c));
                    }
                } else {
                    assert(values_for(all.take(i), c) =~= Seq::<B>::empty()) by {
                        if values_for(all.take(i), c).len() > 0 {
                            let q2 = choose|q2: int| 0 <= q2 < before.len() && (#[trigger] before[q2]).0@ == c;
                            assert(before[q2].0@ != a@);
                        }
                    }
                    assert(out@[q].1@ =~= seq![pg.1]);
                }
            }
            assert forall|x: int, y: int| 0 <= x < y < out@.len() implies (#[trigger] out@[x]).0@ != (#[trigger] out@[y]).0@ by {
                if y < before.len() {
                    assert(out@[x].0 == before[x].0 && out@[y].0 == before[y].0);
                } else {
                    assert(out@[x].0 == before[x].0);
                }
            }
            assert forall|k: Seq<char>| #[trigger] values_for(all.take(i + 1), k).len() > 0 implies exists|q: int| 0 <= q < out@.len() && (#[trigger] out@[q]).0@ == k by {
                assert(values_for(all.take(i + 1), k) == values_for(all.take(i), k) + if pg.0@ == k {
                    seq![pg.1]
                } else {
                    seq![]
                });
                if pg.0@ == k {
                    if p < before.len() {
                        assert(out@[p as int].0@ == k);
                    } else {
                        assert(out@[before.len() as int].0@ == k);
                    }
                } else {
                    assert(values_for(all.take(i + 1), k) =~= values_for(all.take(i), k));
                    let q2 = choose|q2: int| 0 <= q2 < before.len() && (#[trigger] before[q2]).0@ == k;
                    assert(out@[q2].0 == before[q2].0);
                }
            }
        }
    }
    proof {
        assert(all.take(all.len() as int) =~= all);
    }
    out
}

} // verus!
