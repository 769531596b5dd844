//! Where the checkpoint is.
//!
//! The daemon listens on a Unix domain socket. What is said of paths here is said of Unix, where
//! `/` is the only separator.

use crate::text::trimmed;
use std::path::{Path, PathBuf};
use vstd::prelude::*;
use vstd::utf8::encode_utf8;

verus! {

/// `std::path::Path`. What it holds is told by [`path_text`].
#[verifier::external_type_specification]
#[verifier::external_body]
pub struct ExPath(Path);

/// `std::path::PathBuf`. What it holds is told by [`path_buf_text`].
#[verifier::external_type_specification]
#[verifier::external_body]
pub struct ExPathBuf(PathBuf);

/// The bytes of a path, as `OsStr::as_encoded_bytes` gives them.
pub uninterp spec fn path_text(path: &Path) -> Seq<u8>;

/// The bytes of an owned path, as `OsStr::as_encoded_bytes` gives them.
pub uninterp spec fn path_buf_text(path: &PathBuf) -> Seq<u8>;

/// The byte of `/`.
pub open spec fn separator() -> u8 {
    0x2f
}

/// The name of the directory itself: `.`
pub open spec fn this_directory() -> Seq<u8> {
    seq![0x2eu8]
}

/// The name of the directory above: `..`
pub open spec fn directory_above() -> Seq<u8> {
    seq![0x2eu8, 0x2eu8]
}

/// What stands before, between and behind the separators.
pub open spec fn pieces(text: Seq<u8>) -> Seq<Seq<u8>>
    decreases text.len(),
{
    if text.len() == 0 {
        seq![Seq::empty()]
    } else {
        let earlier = pieces(text.drop_last());
        if text.last() == separator() {
            earlier.push(Seq::empty())
        } else {
            earlier.drop_last().push(earlier.last().push(text.last()))
        }
    }
}

/// The pieces that count: empty ones do not, and `.` only where it is the first.
pub open spec fn counted(pieces: Seq<Seq<u8>>) -> Seq<Seq<u8>>
    decreases pieces.len(),
{
    if pieces.len() == 0 {
        Seq::empty()
    } else {
        let earlier = counted(pieces.drop_last());
        let last = pieces.last();
        if last.len() > 0 && (last != this_directory() || pieces.len() == 1) {
            earlier.push(last)
        } else {
            earlier
        }
    }
}

/// A path by its components. Paths with the same components are equal.
#[verifier::ext_equal]
pub struct PathView {
    pub rooted: bool,
    pub parts: Seq<Seq<u8>>,
}

/// The components of a path: repeated separators, a separator at the end and `.` other than at the
/// beginning make no difference.
pub open spec fn components(text: Seq<u8>) -> PathView {
    PathView {
        rooted: text.len() > 0 && text[0] == separator(),
        parts: counted(pieces(text)),
    }
}

impl PathView {
    /// The last component, where it is a name.
    pub open spec fn file_name(self) -> Option<Seq<u8>> {
        if self.parts.len() > 0 && self.parts.last() != this_directory() && self.parts.last()
            != directory_above() {
            Some(self.parts.last())
        } else {
            None
        }
    }

    /// The path with `name` in the place of its last name, or behind it where it has none.
    pub open spec fn renamed(self, name: Seq<u8>) -> PathView {
        PathView {
            rooted: self.rooted,
            parts: if self.file_name() is Some {
                self.parts.drop_last().push(name)
            } else {
                self.parts.push(name)
            },
        }
    }

    /// The name of the checkpoint for the socket at this path: the name of the socket, where it has
    /// one, with `-annotations.json` behind it.
    pub open spec fn checkpoint_name(self) -> Seq<u8> {
        let suffix = encode_utf8("-annotations.json"@);
        match self.file_name() {
            Some(name) => name + suffix,
            None => suffix,
        }
    }

    /// The path of the checkpoint for the socket at this path: in the same directory, under
    /// [`PathView::checkpoint_name`].
    pub open spec fn checkpoint_beside(self) -> PathView {
        self.renamed(self.checkpoint_name())
    }
}

/// A name that a file in a directory can have.
pub open spec fn is_file_name(name: Seq<u8>) -> bool {
    &&& name.len() > 0
    &&& !name.contains(separator())
    &&& name != this_directory()
    &&& name != directory_above()
}

/// `Path::file_name`: the last component, if it is a name.
#[verifier::external_body]
fn file_name(path: &Path) -> (name: Option<&Path>)
    ensures
        match name {
            Some(name) => components(path_text(path)).file_name() == Some(path_text(name)),
            None => components(path_text(path)).file_name() is None,
        },
{
    path.file_name().map(Path::new)
}

/// `Path::with_file_name`: the last component is replaced if it is a name, and `name` is added
/// otherwise. The path is extended with `name`, so that its bytes end in those of `name`.
#[verifier::external_body]
fn with_file_name(path: &Path, name: &PathBuf) -> (renamed: PathBuf)
    requires
        is_file_name(path_buf_text(name)),
    ensures
        components(path_buf_text(&renamed)) == components(path_text(path)).renamed(
            path_buf_text(name),
        ),
        path_buf_text(name).is_suffix_of(path_buf_text(&renamed)),
{
    path.with_file_name(name)
}

/// `OsString::push`: the bytes of the path, and those of `suffix` behind them.
#[verifier::external_body]
fn with_suffix(path: &Path, suffix: &str) -> (longer: PathBuf)
    ensures
        path_buf_text(&longer) == path_text(path) + encode_utf8(suffix@),
{
    let mut text = path.as_os_str().to_os_string();
    text.push(suffix);
    PathBuf::from(text)
}

/// `PathBuf::from` of a string: the bytes of the string.
#[verifier::external_body]
fn path_from(text: &str) -> (path: PathBuf)
    ensures
        path_buf_text(&path) == encode_utf8(text@),
{
    PathBuf::from(text)
}

/// `Path::parent`: the path without its last component, if it has one.
#[verifier::external_body]
fn parent(path: &Path) -> (directory: Option<&Path>)
    ensures
        match directory {
            Some(directory) => components(path_text(path)).parts.len() > 0 && components(
                path_text(directory),
            ) == (PathView {
                parts: components(path_text(path)).parts.drop_last(),
                ..components(path_text(path))
            }),
            None => components(path_text(path)).parts.len() == 0,
        },
{
    path.parent()
}

/// `OsStr::is_empty`, of a path: it has no bytes.
#[verifier::external_body]
fn is_blank(path: &Path) -> (blank: bool)
    ensures
        blank == (path_text(path).len() == 0),
{
    path.as_os_str().is_empty()
}

proof fn lemma_pieces_have_no_separator(text: Seq<u8>)
    ensures
        pieces(text).len() > 0,
        forall|i: int|
            0 <= i < pieces(text).len() ==> !(#[trigger] pieces(text)[i]).contains(separator()),
    decreases text.len(),
{
    if text.len() > 0 {
        let earlier = pieces(text.drop_last());
        lemma_pieces_have_no_separator(text.drop_last());
        assert(!earlier.last().contains(separator()));
        assert forall|i: int| 0 <= i < pieces(text).len() implies !(
        #[trigger] pieces(text)[i]).contains(separator()) by {
            if i < earlier.len() - 1 {
                assert(pieces(text)[i] == earlier[i]);
            } else if text.last() != separator() {
                let piece = earlier.last().push(text.last());
                assert(pieces(text)[i] == piece);
                if piece.contains(separator()) {
                    let k = choose|k: int| 0 <= k < piece.len() && piece[k] == separator();
                    assert(earlier.last()[k] == separator());
                }
            }
        }
    }
}

proof fn lemma_counted_are_pieces(pieces: Seq<Seq<u8>>)
    ensures
        forall|i: int|
            0 <= i < counted(pieces).len() ==> pieces.contains(#[trigger] counted(pieces)[i])
                && counted(pieces)[i].len() > 0,
    decreases pieces.len(),
{
    if pieces.len() > 0 {
        let earlier = pieces.drop_last();
        lemma_counted_are_pieces(earlier);
        assert forall|i: int| 0 <= i < counted(pieces).len() implies pieces.contains(
            #[trigger] counted(pieces)[i],
        ) && counted(pieces)[i].len() > 0 by {
            if i < counted(earlier).len() {
                assert(counted(pieces)[i] == counted(earlier)[i]);
                let k = choose|k: int| 0 <= k < earlier.len() && earlier[k] == counted(earlier)[i];
                assert(pieces[k] == counted(pieces)[i]);
            } else {
                assert(pieces[pieces.len() - 1] == counted(pieces)[i]);
            }
        }
    }
}

/// The components of a path are not empty and hold no separator.
pub proof fn lemma_parts(text: Seq<u8>)
    ensures
        forall|i: int|
            0 <= i < components(text).parts.len() ==> (#[trigger] components(text).parts[i]).len()
                > 0 && !components(text).parts[i].contains(separator()),
{
    lemma_pieces_have_no_separator(text);
    lemma_counted_are_pieces(pieces(text));
    assert forall|i: int| 0 <= i < components(text).parts.len() implies (
    #[trigger] components(text).parts[i]).len() > 0 && !components(text).parts[i].contains(
        separator(),
    ) by {
        let part = counted(pieces(text))[i];
        let k = choose|k: int| 0 <= k < pieces(text).len() && pieces(text)[k] == part;
        assert(!pieces(text)[k].contains(separator()));
    }
}

/// What is put behind the name of the socket holds no separator.
proof fn lemma_suffix()
    ensures
        encode_utf8("-annotations.json"@).len() == 17,
        !encode_utf8("-annotations.json"@).contains(separator()),
{
    reveal_strlit("-annotations.json");
    let suffix = "-annotations.json"@;
    assert(suffix.len() == 17);
    assert(vstd::utf8::is_ascii_chars(suffix));
    vstd::utf8::is_ascii_chars_encode_utf8(suffix);
    assert forall|i: int| 0 <= i < 17 implies (#[trigger] encode_utf8(suffix)[i])
        != separator() by {
        assert(encode_utf8(suffix)[i] == suffix[i] as u8);
    }
}

/// The name of a socket with the suffix behind it is a name that a file can have.
proof fn lemma_checkpoint_name(name: Seq<u8>)
    requires
        !name.contains(separator()),
    ensures
        is_file_name(name + encode_utf8("-annotations.json"@)),
{
    lemma_suffix();
    let suffix = encode_utf8("-annotations.json"@);
    let whole = name + suffix;
    if whole.contains(separator()) {
        let k = choose|k: int| 0 <= k < whole.len() && whole[k] == separator();
        if k < name.len() {
            assert(name[k] == separator());
        } else {
            assert(suffix[k - name.len()] == separator());
        }
    }
}

/// The checkpoint file for the socket at `uds`: `<socket-filename>-annotations.json` in the
/// socket's directory. `/tmp/nvnmosd.sock` uses `/tmp/nvnmosd.sock-annotations.json`.
///
/// The path ends in that name. How separators and `.` stand before it is left open.
pub fn default_checkpoint_file(uds: &Path) -> (path: PathBuf)
    ensures
        components(path_buf_text(&path)) == components(path_text(uds)).checkpoint_beside(),
        components(path_text(uds)).checkpoint_name().is_suffix_of(path_buf_text(&path)),
{
    proof {
        lemma_parts(path_text(uds));
    }
    let name: PathBuf = match file_name(uds) {
        Some(name) => {
            proof {
                lemma_checkpoint_name(path_text(name));
            }
            with_suffix(name, "-annotations.json")
        },
        None => {
            proof {
                lemma_checkpoint_name(Seq::empty());
                assert(Seq::<u8>::empty() + encode_utf8("-annotations.json"@) =~= encode_utf8(
                    "-annotations.json"@,
                ));
            }
            path_from("-annotations.json")
        },
    };
    with_file_name(uds, &name)
}

/// The checkpoint file: the value of the setting, without white space around it, where there is
/// any, or [`default_checkpoint_file`].
pub fn checkpoint_path(setting: Option<&str>, uds: &Path) -> (path: PathBuf)
    ensures
        match setting {
            Some(value) if trimmed(value@).len() > 0 => path_buf_text(&path) == encode_utf8(
                trimmed(value@),
            ),
            _ => components(path_buf_text(&path)) == components(
                path_text(uds),
            ).checkpoint_beside() && components(path_text(uds)).checkpoint_name().is_suffix_of(
                path_buf_text(&path),
            ),
        },
{
    match setting {
        Some(value) => {
            let value: &str = value.trim();
            if value.is_empty() {
                default_checkpoint_file(uds)
            } else {
                path_from(value)
            }
        },
        None => default_checkpoint_file(uds),
    }
}

/// The file that is written before it takes the place of the checkpoint at `path`.
pub fn temp_path(path: &Path) -> (temporary: PathBuf)
    ensures
        path_buf_text(&temporary) == path_text(path) + encode_utf8(".tmp"@),
{
    with_suffix(path, ".tmp")
}

proof fn lemma_first_piece(text: Seq<u8>)
    requires
        text.len() > 0,
        text[0] != separator(),
    ensures
        pieces(text).len() > 0,
        pieces(text)[0].len() > 0,
    decreases text.len(),
{
    let earlier = pieces(text.drop_last());
    if text.len() > 1 {
        lemma_first_piece(text.drop_last());
        if text.last() != separator() {
            assert(pieces(text)[0] == if earlier.len() == 1 {
                earlier.last().push(text.last())
            } else {
                earlier[0]
            });
        }
    } else {
        assert(text.drop_last() =~= Seq::empty());
        assert(pieces(text)[0] == earlier.last().push(text.last()));
    }
}

proof fn lemma_first_piece_counts(pieces: Seq<Seq<u8>>)
    requires
        pieces.len() > 0,
        pieces[0].len() > 0,
    ensures
        counted(pieces).len() > 0,
    decreases pieces.len(),
{
    if pieces.len() > 1 {
        lemma_first_piece_counts(pieces.drop_last());
    }
}

/// The empty path is the one that has neither a root nor components.
proof fn lemma_blank(text: Seq<u8>)
    ensures
        text.len() == 0 <==> !components(text).rooted && components(text).parts.len() == 0,
{
    if text.len() == 0 {
        reveal_with_fuel(counted, 2);
        assert(pieces(text).last() == Seq::<u8>::empty());
    } else if text[0] != separator() {
        lemma_first_piece(text);
        lemma_first_piece_counts(pieces(text));
    }
}

/// The directory of the checkpoint at `path`. A path that is a bare name has none, nor has a root.
pub fn checkpoint_directory(path: &Path) -> (directory: Option<&Path>)
    ensures
        ({
            let whole = components(path_text(path));
            match directory {
                Some(directory) => {
                    &&& whole.parts.len() > 0
                    &&& whole.rooted || whole.parts.len() > 1
                    &&& components(path_text(directory)) == (PathView {
                        parts: whole.parts.drop_last(),
                        ..whole
                    })
                },
                None => whole.parts.len() == 0 || (!whole.rooted && whole.parts.len() == 1),
            }
        }),
{
    match parent(path) {
        Some(directory) => {
            proof {
                lemma_blank(path_text(directory));
            }
            if is_blank(directory) {
                None
            } else {
                Some(directory)
            }
        },
        None => None,
    }
}

/// The default checkpoint is in the directory of the socket, and its name is that of the socket
/// with the suffix behind it.
pub proof fn law_default_checkpoint_is_beside_the_socket(uds: Seq<u8>)
    requires
        components(uds).file_name() is Some,
    ensures
        components(uds).checkpoint_beside().rooted == components(uds).rooted,
        components(uds).checkpoint_beside().parts.drop_last() == components(uds).parts.drop_last(),
        components(uds).checkpoint_beside().file_name() == Some(
            components(uds).file_name()->0 + encode_utf8("-annotations.json"@),
        ),
{
    lemma_parts(uds);
    let name = components(uds).parts.last();
    lemma_checkpoint_name(name);
    assert(components(uds).checkpoint_beside().parts.drop_last() =~= components(
        uds,
    ).parts.drop_last());
}

proof fn lemma_pieces_longer(text: Seq<u8>, more: Seq<u8>)
    requires
        !more.contains(separator()),
    ensures
        pieces(text).len() > 0,
        pieces(text + more) == pieces(text).drop_last().push(pieces(text).last() + more),
    decreases more.len(),
{
    lemma_pieces_have_no_separator(text);
    if more.len() == 0 {
        assert(text + more =~= text);
        assert(pieces(text).last() + more =~= pieces(text).last());
    } else {
        let fewer = more.drop_last();
        assert forall|k: int| 0 <= k < fewer.len() implies #[trigger] fewer[k] != separator() by {
            assert(more[k] != separator());
        }
        lemma_pieces_longer(text, fewer);
        assert(more[more.len() - 1] != separator());
        assert((text + more).drop_last() =~= text + fewer);
        assert((pieces(text).last() + fewer).push(more.last()) =~= pieces(text).last() + more);
    }
}

/// Where a path ends in its last name, that name is its last piece.
proof fn lemma_last_piece(text: Seq<u8>)
    requires
        components(text).file_name() is Some,
        (components(text).file_name()->0).is_suffix_of(text),
    ensures
        pieces(text).len() > 0,
        pieces(text).last() == components(text).file_name()->0,
        components(text).parts.drop_last() == counted(pieces(text).drop_last()),
{
    let name = components(text).file_name()->0;
    let directory = text.take(text.len() - name.len());
    lemma_parts(text);
    assert(text =~= directory + name);
    lemma_pieces_longer(directory, name);
    let last = pieces(text).last();
    assert(last == pieces(directory).last() + name);
    if last == this_directory() && pieces(text).len() > 1 {
        assert(last.len() == 1);
        assert(name =~= last);
    }
    assert(counted(pieces(text)).drop_last() =~= counted(pieces(text).drop_last()));
}

proof fn lemma_temporary_suffix()
    ensures
        encode_utf8(".tmp"@).len() == 4,
        !encode_utf8(".tmp"@).contains(separator()),
{
    reveal_strlit(".tmp");
    let suffix = ".tmp"@;
    assert(suffix.len() == 4);
    assert(vstd::utf8::is_ascii_chars(suffix));
    vstd::utf8::is_ascii_chars_encode_utf8(suffix);
    assert forall|i: int| 0 <= i < 4 implies (#[trigger] encode_utf8(suffix)[i])
        != separator() by {
        assert(encode_utf8(suffix)[i] == suffix[i] as u8);
    }
}

/// The temporary file of a checkpoint whose path ends in its name is in the directory of the
/// checkpoint, and its name is that of the checkpoint with `.tmp` behind it.
pub proof fn law_temporary_file_is_beside_the_checkpoint(path: Seq<u8>)
    requires
        components(path).file_name() is Some,
        (components(path).file_name()->0).is_suffix_of(path),
    ensures
        components(path + encode_utf8(".tmp"@)) == components(path).renamed(
            components(path).file_name()->0 + encode_utf8(".tmp"@),
        ),
        components(path + encode_utf8(".tmp"@)).file_name() == Some(
            components(path).file_name()->0 + encode_utf8(".tmp"@),
        ),
{
    let suffix = encode_utf8(".tmp"@);
    let name = components(path).file_name()->0;
    lemma_temporary_suffix();
    lemma_parts(path);
    lemma_last_piece(path);
    lemma_pieces_longer(path, suffix);
    let longer = pieces(path + suffix);
    assert(longer.drop_last() =~= pieces(path).drop_last());
    assert(longer.last() == name + suffix);
    assert((name + suffix).len() > 2);
    assert((path + suffix)[0] == path[0]);
    assert(components(path + suffix) =~= components(path).renamed(name + suffix));
}

/// The temporary file of the default checkpoint is in the directory of the socket, and its name is
/// that of the checkpoint with `.tmp` behind it.
pub proof fn law_temporary_file_is_beside_the_socket(uds: Seq<u8>, checkpoint: Seq<u8>)
    requires
        components(checkpoint) == components(uds).checkpoint_beside(),
        components(uds).checkpoint_name().is_suffix_of(checkpoint),
    ensures
        components(checkpoint + encode_utf8(".tmp"@)) == components(uds).renamed(
            components(uds).checkpoint_name() + encode_utf8(".tmp"@),
        ),
        components(checkpoint + encode_utf8(".tmp"@)).file_name() == Some(
            components(uds).checkpoint_name() + encode_utf8(".tmp"@),
        ),
{
    let name = components(uds).checkpoint_name();
    lemma_parts(uds);
    match components(uds).file_name() {
        Some(socket) => lemma_checkpoint_name(socket),
        None => {
            lemma_checkpoint_name(Seq::empty());
            assert(Seq::<u8>::empty() + name =~= name);
        },
    }
    assert(components(checkpoint).file_name() == Some(name));
    law_temporary_file_is_beside_the_checkpoint(checkpoint);
    assert(components(uds).checkpoint_beside().renamed(name + encode_utf8(".tmp"@))
        =~= components(uds).renamed(name + encode_utf8(".tmp"@)));
}

/// Sockets with different paths have different default checkpoints.
pub proof fn law_default_checkpoints_are_distinct(a: Seq<u8>, b: Seq<u8>)
    requires
        components(a) != components(b),
    ensures
        components(a).checkpoint_beside() != components(b).checkpoint_beside(),
{
    lemma_parts(a);
    lemma_parts(b);
    let x = components(a);
    let y = components(b);
    let suffix = encode_utf8("-annotations.json"@);
    if x.checkpoint_beside() == y.checkpoint_beside() {
        let p = x.checkpoint_beside().parts;
        assert(p.last() == x.checkpoint_beside().parts.last());
        assert(p.last() == y.checkpoint_beside().parts.last());
        assert(x.file_name() is Some ==> p.last() =~= x.parts.last() + suffix && p.drop_last()
            =~= x.parts.drop_last());
        assert(y.file_name() is Some ==> p.last() =~= y.parts.last() + suffix && p.drop_last()
            =~= y.parts.drop_last());
        assert(x.file_name() is None ==> p.last() == suffix && p.drop_last() =~= x.parts);
        assert(y.file_name() is None ==> p.last() == suffix && p.drop_last() =~= y.parts);
        if x.file_name() is Some && y.file_name() is Some {
            assert(x.parts.last() =~= p.last().take(p.last().len() - suffix.len()));
            assert(y.parts.last() =~= p.last().take(p.last().len() - suffix.len()));
            assert(x.parts =~= x.parts.drop_last().push(x.parts.last()));
            assert(y.parts =~= y.parts.drop_last().push(y.parts.last()));
        } else if x.file_name() is Some {
            assert(x.parts.last().len() > 0);
        } else if y.file_name() is Some {
            assert(y.parts.last().len() > 0);
        }
        assert(x =~= y);
    }
}

/// The default checkpoint of a socket without a name, such as a root, is in the directory that the
/// path is, under the bare suffix.
pub proof fn law_default_checkpoint_of_a_nameless_socket(uds: Seq<u8>)
    requires
        components(uds).file_name() is None,
    ensures
        components(uds).checkpoint_beside().rooted == components(uds).rooted,
        components(uds).checkpoint_beside().parts == components(uds).parts.push(
            encode_utf8("-annotations.json"@),
        ),
{
}

/// A file in a directory has the components of the directory and its own name, and is found under
/// that name.
pub proof fn law_file_in_a_directory(directory: Seq<u8>, name: Seq<u8>)
    requires
        name.len() > 0,
        !name.contains(separator()),
        name != this_directory(),
    ensures
        components(directory.push(separator()) + name).parts == components(directory).parts.push(
            name,
        ),
        components(directory.push(separator()) + name).rooted == (directory.len() == 0
            || components(directory).rooted),
        name != directory_above() ==> components(directory.push(separator()) + name).file_name()
            == Some(name),
{
    let before = directory.push(separator());
    lemma_pieces_have_no_separator(directory);
    assert(before.drop_last() =~= directory);
    lemma_pieces_longer(before, name);
    assert(Seq::<u8>::empty() + name =~= name);
    let all = pieces(before + name);
    assert(pieces(before).drop_last() =~= pieces(directory));
    assert(all =~= pieces(directory).push(name));
    assert(all.drop_last() =~= pieces(directory));
    assert((before + name)[0] == if directory.len() == 0 {
        separator()
    } else {
        directory[0]
    });
}

/// A separator behind a path makes no difference.
pub proof fn law_separator_at_the_end_makes_no_difference(path: Seq<u8>)
    requires
        path.len() > 0,
    ensures
        components(path.push(separator())) == components(path),
{
    assert(path.push(separator()).drop_last() =~= path);
    assert(pieces(path.push(separator())).drop_last() =~= pieces(path));
    assert(components(path.push(separator())) =~= components(path));
}

/// A `.` behind a path makes no difference.
pub proof fn law_dot_at_the_end_makes_no_difference(path: Seq<u8>)
    requires
        path.len() > 0,
    ensures
        components(path.push(separator()) + this_directory()) == components(path),
{
    let before = path.push(separator());
    let dot = this_directory();
    lemma_pieces_have_no_separator(path);
    assert(before.drop_last() =~= path);
    assert(dot[0] != separator());
    lemma_pieces_longer(before, dot);
    assert(Seq::<u8>::empty() + dot =~= dot);
    assert(pieces(before + dot) =~= pieces(path).push(dot));
    assert(pieces(before + dot).drop_last() =~= pieces(path));
    assert((before + dot)[0] == path[0]);
    assert(components(before + dot) =~= components(path));
}

/// The default checkpoint of a socket whose path ends in its name is that path with the suffix
/// behind it.
pub proof fn law_default_checkpoint_is_the_socket_with_the_suffix(uds: Seq<u8>)
    requires
        components(uds).file_name() is Some,
        (components(uds).file_name()->0).is_suffix_of(uds),
    ensures
        components(uds).checkpoint_beside() == components(
            uds + encode_utf8("-annotations.json"@),
        ),
{
    let suffix = encode_utf8("-annotations.json"@);
    let name = components(uds).file_name()->0;
    lemma_suffix();
    lemma_parts(uds);
    lemma_last_piece(uds);
    lemma_pieces_longer(uds, suffix);
    let longer = pieces(uds + suffix);
    assert(longer.drop_last() =~= pieces(uds).drop_last());
    assert(longer.last() == name + suffix);
    assert((name + suffix).len() > 2);
    assert((uds + suffix)[0] == uds[0]);
    assert(components(uds + suffix) =~= components(uds).checkpoint_beside());
}

}
