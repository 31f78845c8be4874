//! Which project the remembered tests belong to: the repository root and the
//! branch, as `git` reports them, joined into one key.
use vstd::prelude::*;
use crate::text::{
    CharClass, first_in, has_in, in_class, lemma_first_in, lemma_first_in_props, split_colons, trim,
    trimmed,
};

verus! {

/// The key of the project at `root` on `branch`: `"{root}:{branch}"`.
pub open spec fn project_key(root: Seq<char>, branch: Seq<char>) -> Seq<char> {
    root + seq![':'] + branch
}

/// The branch that a detached `HEAD` is reported as: `detached-{hash}`, or
/// `detached` when the commit hash could not be had.
pub open spec fn detached_name(hash: Option<Seq<char>>) -> Seq<char> {
    match hash {
        Some(h) => "detached-"@ + trim(h),
        None => "detached"@,
    }
}

/// The storage key of the project at `root` on `branch`.
pub fn get_project_key(root: &str, branch: &str) -> (key: String)
    ensures
        key@ == project_key(root@, branch@),
{
    let mut key = String::from_str(root);
    crate::text::push_char(&mut key, ':');
    key.append(branch);
    key
}

/// What a `git` command printed, without surrounding whitespace: the
/// repository root printed by `git rev-parse --show-toplevel`, say.
pub fn command_output_text(output: &str) -> (r: String)
    ensures
        r@ == trim(output@),
{
    trimmed(output)
}

/// The branch printed by `git branch --show-current`, or `None` when it
/// printed nothing, as it does on a detached `HEAD`.
pub fn branch_from_output(output: &str) -> (r: Option<String>)
    ensures
        match r {
            Some(b) => b@ == trim(output@) && b@.len() > 0,
            None => trim(output@).len() == 0,
        },
{
    let b = trimmed(output);
    if b.as_str().is_empty() {
        None
    } else {
        Some(b)
    }
}

/// The name used for a detached `HEAD`, from what `git rev-parse --short HEAD`
/// printed, or from `None` when that command failed.
pub fn detached_branch_name(hash_output: Option<&str>) -> (r: String)
    ensures
        r@ == detached_name(
            match hash_output {
                Some(h) => Some(h@),
                None => None,
            },
        ),
{
    match hash_output {
        Some(h) => {
            let hash = trimmed(h);
            let mut r = String::from_str("detached-");
            r.append(hash.as_str());
            r
        },
        None => String::from_str("detached"),
    }
}

/// In a key whose root holds no `':'`, the first `':'` ends the root.
pub proof fn lemma_key_first_colon(root: Seq<char>, branch: Seq<char>)
    requires
        !has_in(root, CharClass::Exactly(':')),
    ensures
        first_in(project_key(root, branch), CharClass::Exactly(':')) == root.len(),
        project_key(root, branch).take(root.len() as int) == root,
        project_key(root, branch).skip(root.len() + 1 as int) == branch,
{
    let key = project_key(root, branch);
    let colon = CharClass::Exactly(':');
    lemma_first_in_props(root, colon);
    assert forall|j: int| 0 <= j < root.len() implies !in_class(#[trigger] key[j], colon) by {
        assert(key[j] == root[j]);
        if in_class(key[j], colon) {
            assert(has_in(root, colon));
        }
    }
    assert(key[root.len() as int] == ':');
    lemma_first_in(key, colon, root.len() as int);
    assert(key.take(root.len() as int) =~= root);
    assert(key.skip(root.len() + 1 as int) =~= branch);
}

/// A key splits at `':'` into its root and branch again, when neither holds a `':'`.
pub proof fn law_project_key_splits(root: Seq<char>, branch: Seq<char>)
    requires
        !has_in(root, CharClass::Exactly(':')),
        !has_in(branch, CharClass::Exactly(':')),
    ensures
        split_colons(project_key(root, branch)) == seq![root, branch],
{
    let key = project_key(root, branch);
    lemma_key_first_colon(root, branch);
    lemma_first_in_props(branch, CharClass::Exactly(':'));
    assert(split_colons(branch) == seq![branch]);
    assert(split_colons(key) =~= seq![root, branch]);
}

/// Each repository and branch has a key of its own: two projects whose roots
/// hold no `':'` share a key only when root and branch are the same.
pub proof fn law_keys_tell_projects_apart(
    root1: Seq<char>,
    branch1: Seq<char>,
    root2: Seq<char>,
    branch2: Seq<char>,
)
    requires
        !has_in(root1, CharClass::Exactly(':')),
        !has_in(root2, CharClass::Exactly(':')),
        project_key(root1, branch1) == project_key(root2, branch2),
    ensures
        root1 == root2,
        branch1 == branch2,
{
    lemma_key_first_colon(root1, branch1);
    lemma_key_first_colon(root2, branch2);
}

} // verus!
