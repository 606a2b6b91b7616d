use crate::db::{insert_repository, Store};
use crate::models::{IndexError, Repository, RepositoryView};
use crate::parser::{
    file_views, parse_repository, repository_indexed, repository_refused, SourceFile,
};
use crate::text::{
    contains_text, distinct, ends_with, find_char, find_last, first_index, from_chars, has_suffix,
    has_text, holds_text, last_index, lemma_distinct, lemma_first_index, same_text, texts,
    to_chars, trim_end, trim_end_range, CharSet,
};
use vstd::prelude::*;
use vstd::string::StringExecFns;

verus! {

/// Adds the repository `repo_name` to the tags, unless they hold it. The tags
/// are a list in which a name is looked up by comparing texts: vstd gives
/// `String` no model as a key of a hash set.
pub fn add_tag(repo_name: &str, tags: &mut Vec<String>)
    ensures
        texts(final(tags)@) == (if texts(old(tags)@).contains(repo_name@) {
            texts(old(tags)@)
        } else {
            texts(old(tags)@).push(repo_name@)
        }),
{
    if !holds_text(tags, repo_name) {
        let tag = repo_name.to_owned();
        assert(texts(tags@.push(tag)) =~= texts(tags@).push(repo_name@));
        tags.push(tag);
    }
}

/// The texts of `tags` but `name`, in their order.
pub open spec fn without(tags: Seq<Seq<char>>, name: Seq<char>) -> Seq<Seq<char>>
    decreases tags.len(),
{
    if tags.len() == 0 {
        Seq::empty()
    } else if tags.last() == name {
        without(tags.drop_last(), name)
    } else {
        without(tags.drop_last(), name).push(tags.last())
    }
}

/// Removes the repository `repo_name` from the tags.
pub fn remove_tag(repo_name: &str, tags: &mut Vec<String>)
    ensures
        texts(final(tags)@) == without(texts(old(tags)@), repo_name@),
{
    let mut kept: Vec<String> = Vec::new();
    let mut k: usize = 0;
    let ghost all = texts(tags@);
    assert(texts(kept@) =~= without(all.take(0), repo_name@));
    while k < tags.len()
        invariant
            k <= tags@.len(),
            tags@ == old(tags)@,
            all == texts(tags@),
            texts(kept@) == without(all.take(k as int), repo_name@),
        decreases tags@.len() - k,
    {
        proof {
            assert(all.take(k + 1).drop_last() == all.take(k as int));
            assert(all.take(k + 1).last() == tags@[k as int]@);
        }
        if !same_text(tags[k].as_str(), repo_name) {
            let tag = tags[k].clone();
            assert(texts(kept@.push(tag)) =~= texts(kept@).push(tag@));
            kept.push(tag);
        }
        k += 1;
    }
    assert(all.take(k as int) == all);
    *tags = kept;
}

/// `line` without a carriage return at its end.
pub open spec fn chomp(line: Seq<char>) -> Seq<char> {
    if line.len() > 0 && line.last() == '\r' {
        line.drop_last()
    } else {
        line
    }
}

/// The lines of `text`: what stands before each line feed, without a carriage
/// return at its end, and what stands behind the last line feed where that is
/// not empty.
pub open spec fn lines_of(text: Seq<char>) -> Seq<Seq<char>>
    decreases text.len(),
{
    if text.len() == 0 {
        Seq::empty()
    } else {
        let end = first_index(text, '\n');
        if 0 <= end < text.len() {
            seq![chomp(text.take(end))] + lines_of(text.skip(end + 1))
        } else {
            seq![text]
        }
    }
}

/// The text with each of `lines` on a line of its own.
pub open spec fn unlines(lines: Seq<Seq<char>>) -> Seq<char>
    decreases lines.len(),
{
    if lines.len() == 0 {
        Seq::empty()
    } else {
        unlines(lines.drop_last()) + lines.last() + "\n"@
    }
}

/// The tags that the text of a tags file holds: its lines, each once.
pub fn parse_tags(text: &str) -> (tags: Vec<String>)
    ensures
        texts(tags@) == distinct(lines_of(text@)),
        texts(tags@).no_duplicates(),
{
    let chars = to_chars(text);
    let n = chars.len();
    let mut tags: Vec<String> = Vec::new();
    let mut pos: usize = 0;
    let ghost done: Seq<Seq<char>> = Seq::empty();
    assert(chars@.skip(0) == chars@);
    assert(done + lines_of(chars@.skip(0)) == lines_of(chars@));
    while pos < n
        invariant
            pos <= n == chars@.len(),
            chars@ == text@,
            done + lines_of(chars@.skip(pos as int)) == lines_of(chars@),
            texts(tags@) == distinct(done),
        decreases n - pos,
    {
        let ghost rest = chars@.skip(pos as int);
        let end = find_char(&chars, pos, n, '\n');
        proof {
            assert(chars@.subrange(pos as int, n as int) == rest);
            lemma_first_index(rest, '\n');
        }
        let mut stop = end;
        if end < n && end > pos && chars[end - 1] == '\r' {
            stop = end - 1;
        }
        let line = from_chars(&chars, pos, stop);
        let next = if end < n {
            end + 1
        } else {
            n
        };
        proof {
            assert(rest.take(end - pos) == chars@.subrange(pos as int, end as int));
            if end < n {
                assert(line@ == chomp(rest.take(end - pos)));
                assert(rest.skip(end - pos + 1) == chars@.skip(next as int));
                assert(lines_of(rest) == seq![line@] + lines_of(chars@.skip(next as int)));
            } else {
                assert(line@ == rest);
                assert(chars@.skip(next as int).len() == 0);
                assert(lines_of(rest) == seq![line@] + lines_of(chars@.skip(next as int)));
            }
            assert(done.push(line@) + lines_of(chars@.skip(next as int)) =~= done + (seq![line@]
                + lines_of(chars@.skip(next as int))));
            assert(done.push(line@).drop_last() == done);
            done = done.push(line@);
        }
        if !holds_text(&tags, line.as_str()) {
            assert(texts(tags@.push(line)) =~= texts(tags@).push(line@));
            tags.push(line);
        }
        pos = next;
    }
    proof {
        assert(chars@.skip(n as int).len() == 0);
        assert(done + lines_of(chars@.skip(n as int)) =~= done);
        lemma_distinct(done);
    }
    tags
}

/// The text of a tags file that holds `tags`: each on a line of its own.
pub fn format_tags(tags: &Vec<String>) -> (text: String)
    ensures
        text@ == unlines(texts(tags@)),
{
    let mut text = String::new();
    let mut k: usize = 0;
    let ghost all = texts(tags@);
    while k < tags.len()
        invariant
            k <= tags@.len(),
            all == texts(tags@),
            text@ == unlines(all.take(k as int)),
        decreases tags@.len() - k,
    {
        proof {
            assert(all.take(k + 1).drop_last() == all.take(k as int));
            assert(all.take(k + 1).last() == tags@[k as int]@);
        }
        text.append(tags[k].as_str());
        text.append("\n");
        k += 1;
    }
    assert(all.take(k as int) == all);
    text
}

/// The tags after the repository `repo_name` was tagged: the tags that `text`
/// holds, each once, and `repo_name` behind them unless it is one of them.
pub open spec fn tagged(text: Seq<char>, repo_name: Seq<char>) -> Seq<Seq<char>> {
    let tags = distinct(lines_of(text));
    if tags.contains(repo_name) {
        tags
    } else {
        tags.push(repo_name)
    }
}

/// Tags the repository `repo_name`: the text of the tags file with it, given
/// the text `tags_text` of the tags file as it is.
pub fn apply_tag(repo_name: &str, tags_text: &str) -> (text: String)
    ensures
        text@ == unlines(tagged(tags_text@, repo_name@)),
{
    let mut tags = parse_tags(tags_text);
    add_tag(repo_name, &mut tags);
    format_tags(&tags)
}

/// Indexes a repository: adds the repository `repo_name` to `store`, and
/// records what its files `files` define. It returns the id of the repository,
/// and of each file whether it was indexed, or what failed; a file that could not
/// be read, or whose text has no syntax tree, is passed over. A row that the
/// store refuses ends the run.
pub fn parse_repo(repo_name: &str, files: &Vec<SourceFile>, store: &mut Store) -> (r: Result<
    (i32, Vec<Result<bool, IndexError>>),
    IndexError,
>)
    requires
        old(store).wf(),
    ensures
        final(store).wf(),
        match r {
            Ok((repo_id, outcomes)) => {
                &&& old(store)@.accepts_repository()
                &&& repo_id == old(store)@.repositories.len() + 1
                &&& outcomes@.len() == files@.len()
                &&& repository_indexed(
                    old(store)@.with_repository(
                        RepositoryView { id: None, name: repo_name@, description: None },
                    ),
                    final(store)@,
                    file_views(files@),
                    repo_id,
                    outcomes@,
                )
            },
            Err(e) => {
                &&& e == IndexError::StoreFailure
                &&& if old(store)@.accepts_repository() {
                    repository_refused(
                        old(store)@.with_repository(
                            RepositoryView { id: None, name: repo_name@, description: None },
                        ),
                        final(store)@,
                        file_views(files@),
                        (old(store)@.repositories.len() + 1) as i32,
                    )
                } else {
                    final(store)@ == old(store)@
                }
            },
        },
{
    let repo = Repository { id: None, name: repo_name.to_owned(), description: None };
    let repo_id = match insert_repository(store, &repo) {
        Ok(id) => id,
        Err(e) => {
            return Err(e);
        },
    };
    match parse_repository(files, store, repo_id) {
        Ok(outcomes) => Ok((repo_id, outcomes)),
        Err(e) => Err(e),
    }
}

/// The name of the repository behind the link `link`: what stands behind its
/// last slash, the slashes at its end aside.
pub open spec fn name_in_link(link: Seq<char>) -> Seq<char> {
    let path = trim_end(link, CharSet::Slash);
    path.skip(last_index(path, '/') + 1)
}

/// The name of the repository behind the link `link`.
pub fn repo_name_from_link(link: &str) -> (name: String)
    ensures
        name@ == name_in_link(link@),
{
    let chars = to_chars(link);
    let end = trim_end_range(&chars, 0, chars.len(), CharSet::Slash);
    assert(chars@.subrange(0, chars@.len() as int) == link@);
    let mut path: Vec<char> = Vec::new();
    let mut k: usize = 0;
    while k < end
        invariant
            k <= end <= chars@.len(),
            path@ == chars@.subrange(0, k as int),
        decreases end - k,
    {
        path.push(chars[k]);
        k += 1;
        assert(chars@.subrange(0, k as int) == chars@.subrange(0, k - 1).push(chars@[k - 1]));
    }
    assert(path@.skip(0) == path@);
    let start = match find_last(&path, 0, '/') {
        Some(i) => i + 1,
        None => 0,
    };
    let name = from_chars(&path, start, end);
    assert(path@.subrange(start as int, end as int) == path@.skip(start as int));
    name
}

/// Whether a file of the name `name` holds documentation: the name ends in `.md`.
pub fn is_markdown_file(name: &str) -> (r: bool)
    ensures
        r == ends_with(name@, ".md"@),
{
    has_suffix(name, ".md")
}

/// Whether a file of the name `name` may describe a container: it is called
/// `Dockerfile`, or its name ends in `.yml` or `.yaml`.
pub open spec fn is_container_name(name: Seq<char>) -> bool {
    name == "Dockerfile"@ || ends_with(name, ".yml"@) || ends_with(name, ".yaml"@)
}

/// Whether a file of the name `name` may describe a container.
pub fn is_container_candidate(name: &str) -> (r: bool)
    ensures
        r == is_container_name(name@),
{
    same_text(name, "Dockerfile") || has_suffix(name, ".yml") || has_suffix(name, ".yaml")
}

/// Whether a file that may describe a container does: it is called
/// `Dockerfile`, or its text speaks of `services`.
pub fn keeps_container_file(name: &str, content: &str) -> (r: bool)
    ensures
        r == (name@ == "Dockerfile"@ || contains_text(content@, "services"@)),
{
    same_text(name, "Dockerfile") || has_text(content, "services")
}

/// Whether the view of a repository as a tree leaves out a directory of the
/// name `name`.
pub open spec fn is_excluded_name(name: Seq<char>) -> bool {
    ||| name == "node_modules"@
    ||| name == ".github"@
    ||| name == ".git"@
    ||| name == "target"@
    ||| name == ".idea"@
    ||| name == ".vscode"@
    ||| name == "__pycache__"@
    ||| name == "dist"@
    ||| name == "build"@
    ||| name == ".DS_Store"@
    ||| name == ".pytest_cache"@
    ||| name == "logs"@
    ||| name == "coverage"@
    ||| name == ".next"@
    ||| name == "public"@
    ||| name == "static"@
}

/// Whether the view of a repository as a tree leaves out a directory of the
/// name `name`.
pub fn is_excluded_directory(name: &str) -> (r: bool)
    ensures
        r == is_excluded_name(name@),
{
    same_text(name, "node_modules") || same_text(name, ".github") || same_text(name, ".git")
        || same_text(name, "target") || same_text(name, ".idea") || same_text(name, ".vscode")
        || same_text(name, "__pycache__") || same_text(name, "dist") || same_text(name, "build")
        || same_text(name, ".DS_Store") || same_text(name, ".pytest_cache") || same_text(
        name,
        "logs",
    ) || same_text(name, "coverage") || same_text(name, ".next") || same_text(name, "public")
        || same_text(name, "static")
}

/// The number of files of one extension that the view of a repository shows.
pub const SHOWN_FILES: usize = 4;

/// Whether entry `i` of `count` closes its group in the view of a repository,
/// of which at most `limit` entries are shown: it is the last of them, or the
/// last that is shown.
pub fn closes_group(i: usize, count: usize, limit: usize) -> (r: bool)
    ensures
        r == (i + 1 == count || i + 1 == limit),
{
    (i < usize::MAX && i + 1 == count) || (i < usize::MAX && i + 1 == limit)
}

} // verus!
