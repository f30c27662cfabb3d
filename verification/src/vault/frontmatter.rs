//! YAML frontmatter: the `---` block that opens a note.  Locating the
//! block and rewriting a note around an updated block are done here;
//! reading the YAML into a `Frontmatter` is serde's part.
use vstd::prelude::*;
use crate::text::{to_chars, string_of, string_of_range, find, find_from_exec, trim_start,
    trim_end, trim_start_index, trim_end_index, push_str, occurs_at, lemma_find_from,
    lead_ws, is_ws};

verus! {

/// Parsed YAML frontmatter of a markdown note (the fields the rules
/// read).
pub struct Frontmatter {
    pub note_type: Option<String>,
    pub status: Option<String>,
    pub created: Option<String>,
    pub updated: Option<String>,
    pub owner: Option<String>,
    pub project: Option<String>,
    pub tags: Option<Vec<String>>,
}

/// Why a note's frontmatter could not be updated.
pub enum FrontmatterError {
    /// The note does not open with `---`.
    NoFrontmatter,
    /// No closing `---` line follows.
    Unterminated,
    /// The block is not a YAML mapping.
    InvalidYaml,
}

/// The note, without leading white space, opens with `---`.
pub open spec fn opens_block(content: Seq<char>) -> bool {
    let t = trim_start(content);
    t.len() >= 3 && t.take(3) == "---"@
}

/// What follows the opening `---`.
pub open spec fn after_open(content: Seq<char>) -> Seq<char> {
    trim_start(content).skip(3)
}

/// Where the block ends in `after_open`: the first `\n---`, else the
/// first `\r\n---`.
pub open spec fn block_end(after: Seq<char>) -> Option<int> {
    match find(after, "\n---"@) {
        Some(k) => Some(k),
        None => find(after, "\r\n---"@),
    }
}

/// The YAML text of the frontmatter block, if the note has one.
pub open spec fn block_of(content: Seq<char>) -> Option<Seq<char>> {
    if !opens_block(content) {
        None
    } else {
        match block_end(after_open(content)) {
            Some(k) => Some(after_open(content).take(k)),
            None => None,
        }
    }
}

/// Framing of a note: the characters after the opening `---`, and where
/// the block ends in them.
fn frame(content: &str) -> (r: Option<(Vec<char>, Option<usize>)>)
    ensures
        match r {
            None => !opens_block(content@),
            Some((after, end)) => opens_block(content@) && after@ == after_open(content@) && match end {
                Some(k) => block_end(after@) == Some(k as int) && k <= after@.len(),
                None => block_end(after@) is None,
            },
        },
{
    let c = to_chars(content);
    let a = trim_start_index(&c, 0, c.len());
    let ghost t = trim_start(c@);
    assert(c@.subrange(0, c@.len() as int) =~= c@);
    if c.len() - a < 3 || c[a] != '-' || c[a + 1] != '-' || c[a + 2] != '-' {
        proof {
            reveal_strlit("---");
            if t.len() >= 3 {
                assert(t[0] == c@[a as int]);
                assert(t[1] == c@[a + 1]);
                assert(t[2] == c@[a + 2]);
                assert(t.take(3)[0] == t[0]);
                assert(t.take(3)[1] == t[1]);
                assert(t.take(3)[2] == t[2]);
            }
        }
        return None;
    }
    proof {
        reveal_strlit("---");
        assert(t.take(3) =~= "---"@);
    }
    let mut after: Vec<char> = Vec::new();
    let mut k = a + 3;
    while k < c.len()
        invariant
            a + 3 <= k <= c@.len(),
            after@ == c@.subrange(a + 3, k as int),
        decreases c@.len() - k,
    {
        after.push(c[k]);
        assert(c@.subrange(a + 3, k + 1) =~= c@.subrange(a + 3, k as int).push(c@[k as int]));
        k = k + 1;
    }
    assert(after@ =~= t.skip(3));
    let nl = to_chars("\n---");
    let crnl = to_chars("\r\n---");
    let end = match find_from_exec(&after, &nl, 0) {
        Some(e) => Some(e),
        None => find_from_exec(&after, &crnl, 0),
    };
    Some((after, end))
}

/// Extracts the YAML text of a note's frontmatter: the note, without
/// leading white space, must open with `---`; the block runs up to the
/// first `\n---` after it.  None when the note has no such block.
pub fn frontmatter_block(content: &str) -> (r: Option<String>)
    ensures
        match r {
            Some(b) => block_of(content@) == Some(b@),
            None => block_of(content@) is None,
        },
{
    match frame(content) {
        None => None,
        Some((after, end)) => match end {
            None => None,
            Some(k) => {
                assert(after@.subrange(0, k as int) =~= after@.take(k as int));
                Some(string_of_range(&after, 0, k))
            },
        },
    }
}

/// What serde_yaml makes of a frontmatter block with `field` set to the
/// string `value`: the block read as a YAML mapping, the entry inserted
/// (replacing the key's earlier value), and the mapping written back as
/// YAML text; none when the block cannot be read as a mapping or the
/// mapping cannot be written.
pub uninterp spec fn yaml_with_field(block: Seq<char>, field: Seq<char>, value: Seq<char>) -> Option<
    Seq<char>,
>;

/// Calls `serde_yaml::from_str::<serde_yaml::Mapping>` on `block`,
/// `Mapping::insert` with the string key `field` and string value
/// `value`, then `serde_yaml::to_string`; the result is the one named by
/// `yaml_with_field`.
#[verifier::external_body]
fn set_yaml_field(block: &str, field: &str, value: &str) -> (r: Option<String>)
    ensures
        match r {
            Some(y) => yaml_with_field(block@, field@, value@) == Some(y@),
            None => yaml_with_field(block@, field@, value@) is None,
        },
{
    let mut map: serde_yaml::Mapping = serde_yaml::from_str(block).ok()?;
    map.insert(
        serde_yaml::Value::String(field.to_string()),
        serde_yaml::Value::String(value.to_string()),
    );
    serde_yaml::to_string(&map).ok()
}

/// A note rewritten around new YAML: `---`, the YAML without trailing
/// white space, a line break, then the note from the closing `---` on.
pub open spec fn assembled(yaml: Seq<char>, rest: Seq<char>) -> Seq<char> {
    "---\n"@ + trim_end(yaml) + "\n"@ + rest
}

/// The note with frontmatter field `field` set to `value`, or why that
/// is not possible.
pub open spec fn updated_note(content: Seq<char>, field: Seq<char>, value: Seq<char>) -> Result<
    Seq<char>,
    FrontmatterError,
> {
    if !opens_block(content) {
        Err(FrontmatterError::NoFrontmatter)
    } else {
        let after = after_open(content);
        match block_end(after) {
            None => Err(FrontmatterError::Unterminated),
            Some(k) => match yaml_with_field(after.take(k), field, value) {
                None => Err(FrontmatterError::InvalidYaml),
                Some(y) => Ok(assembled(y, after.skip(k))),
            },
        }
    }
}

/// Rebuilds a note from serialized YAML and the text that followed the
/// old block.
pub fn assemble_frontmatter(new_yaml: &str, rest: &str) -> (r: String)
    ensures
        r@ == assembled(new_yaml@, rest@),
{
    let y = to_chars(new_yaml);
    let e = trim_end_index(&y, 0, y.len());
    assert(y@.subrange(0, y@.len() as int) =~= y@);
    let mut out: Vec<char> = Vec::new();
    push_str(&mut out, "---\n");
    let mut k: usize = 0;
    while k < e
        invariant
            k <= e <= y@.len(),
            out@ == "---\n"@ + y@.subrange(0, k as int),
        decreases e - k,
    {
        out.push(y[k]);
        assert(y@.subrange(0, k + 1) =~= y@.subrange(0, k as int).push(y@[k as int]));
        k = k + 1;
    }
    push_str(&mut out, "\n");
    push_str(&mut out, rest);
    assert(out@ =~= assembled(new_yaml@, rest@));
    string_of(&out)
}

/// Sets frontmatter field `field` to the string `value` in a note's
/// content, keeping everything from the block's closing `---` on.
pub fn update_frontmatter_content(content: &str, field: &str, value: &str) -> (r: Result<
    String,
    FrontmatterError,
>)
    ensures
        match r {
            Ok(s) => updated_note(content@, field@, value@) == Ok::<Seq<char>, FrontmatterError>(
                s@,
            ),
            Err(e) => updated_note(content@, field@, value@) == Err::<Seq<char>, FrontmatterError>(
                e,
            ),
        },
{
    match frame(content) {
        None => Err(FrontmatterError::NoFrontmatter),
        Some((after, end)) => match end {
            None => Err(FrontmatterError::Unterminated),
            Some(k) => {
                let block = string_of_range(&after, 0, k);
                let rest = string_of_range(&after, k, after.len());
                assert(after@.subrange(0, k as int) =~= after@.take(k as int));
                assert(after@.subrange(k as int, after@.len() as int) =~= after@.skip(k as int));
                match set_yaml_field(block.as_str(), field, value) {
                    None => Err(FrontmatterError::InvalidYaml),
                    Some(y) => Ok(assemble_frontmatter(y.as_str(), rest.as_str())),
                }
            },
        },
    }
}

/// Setting a field keeps the note a note with frontmatter: the updated
/// note opens a terminated frontmatter block again, and it ends with
/// exactly the text that followed the old block (the closing `---` and
/// the body).
pub proof fn lemma_update_keeps_frontmatter(content: Seq<char>, field: Seq<char>, value: Seq<char>)
    requires
        updated_note(content, field, value) is Ok,
    ensures
        block_of(updated_note(content, field, value)->Ok_0) is Some,
        ({
            let n = updated_note(content, field, value)->Ok_0;
            let rest = after_open(content).skip(block_end(after_open(content))->0);
            rest.len() <= n.len() && n.skip(n.len() - rest.len()) == rest
        }),
{
    reveal_strlit("---\n");
    reveal_strlit("\n");
    reveal_strlit("\n---");
    reveal_strlit("\r\n---");
    reveal_strlit("---");
    let after = after_open(content);
    let k = block_end(after)->0;
    let y = yaml_with_field(after.take(k), field, value)->0;
    let rest = after.skip(k);
    let te = trim_end(y);
    let n = updated_note(content, field, value)->Ok_0;
    assert(n == "---\n"@ + te + "\n"@ + rest);
    // Where the old block ended, the rest opens with a line break and `---`.
    lemma_find_from(after, "\n---"@, 0);
    lemma_find_from(after, "\r\n---"@, 0);
    let off: int = if occurs_at(after, k, "\n---"@) {
        0
    } else {
        assert(occurs_at(after, k, "\r\n---"@));
        1
    };
    assert(rest.subrange(off, off + 4) =~= "\n---"@) by {
        if off == 0 {
            assert(after.subrange(k, k + 4) == "\n---"@);
            assert forall|m: int| 0 <= m < 4 implies rest.subrange(0, 4)[m] == "\n---"@[m] by {
                assert(rest.subrange(0, 4)[m] == after.subrange(k, k + 4)[m]);
            }
        } else {
            assert(after.subrange(k, k + 5) == "\r\n---"@);
            assert forall|m: int| 0 <= m < 4 implies rest.subrange(1, 5)[m] == "\n---"@[m] by {
                assert(rest.subrange(1, 5)[m] == after.subrange(k, k + 5)[m + 1]);
            }
        }
    }
    // The updated note opens a block.
    assert(n[0] == '-');
    assert(!is_ws(n[0]));
    assert(lead_ws(n) == 0);
    assert(trim_start(n) =~= n);
    assert(n.take(3) =~= "---"@);
    let a2 = after_open(n);
    assert(a2 =~= "\n"@ + te + "\n"@ + rest);
    let at = 2 + te.len() + off;
    assert(a2.subrange(at, at + 4) =~= rest.subrange(off, off + 4));
    assert(occurs_at(a2, at, "\n---"@));
    lemma_find_from(a2, "\n---"@, 0);
    assert(block_end(a2) is Some);
    assert(n.skip(n.len() - rest.len()) =~= rest);
}

/// The text of a frontmatter-update error for the note at `path`.
pub open spec fn frontmatter_error_text(e: FrontmatterError, path: Seq<char>) -> Seq<char> {
    match e {
        FrontmatterError::NoFrontmatter => "file has no frontmatter: "@ + path,
        FrontmatterError::Unterminated => "unterminated frontmatter in "@ + path,
        FrontmatterError::InvalidYaml => "parsing frontmatter for update"@,
    }
}

impl FrontmatterError {
    /// The message reported for this error on the note at `path`.
    pub fn message(&self, path: &str) -> (r: String)
        ensures
            r@ == frontmatter_error_text(*self, path@),
    {
        let mut out: Vec<char> = Vec::new();
        match self {
            FrontmatterError::NoFrontmatter => {
                push_str(&mut out, "file has no frontmatter: ");
                push_str(&mut out, path);
            },
            FrontmatterError::Unterminated => {
                push_str(&mut out, "unterminated frontmatter in ");
                push_str(&mut out, path);
            },
            FrontmatterError::InvalidYaml => {
                push_str(&mut out, "parsing frontmatter for update");
            },
        }
        assert(out@ =~= frontmatter_error_text(*self, path@));
        string_of(&out)
    }
}

} // verus!
