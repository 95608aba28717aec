use vstd::prelude::*;
use std::collections::HashMap;
use crate::text::{chars_of, chars_eq, push_all, string_of, seqs_of};
use crate::kernel::scheduler::{without, lemma_without};

verus! {

broadcast use vstd::std_specs::hash::group_hash_axioms;

/// Whether an inode is a file or a directory.
#[derive(Clone, Copy, Debug, PartialEq, Eq, Structural)]
pub enum InodeType {
    File,
    Directory,
}

/// A file or directory node.
#[derive(Clone, Debug)]
pub struct Inode {
    pub id: u32,
    pub name: String,
    pub inode_type: InodeType,
    pub content: Vec<u8>,
    pub children: Vec<u32>,
    pub parent: Option<u32>,
    pub size: usize,
    pub created_at: u64,
}

/// Abstract value of an inode.
#[verifier::ext_equal]
pub struct InodeView {
    pub id: u32,
    pub name: Seq<char>,
    pub inode_type: InodeType,
    pub content: Seq<u8>,
    pub children: Seq<u32>,
    pub parent: Option<u32>,
    pub size: usize,
    pub created_at: u64,
}

/// In-memory inode file system; inode 0 is the root directory.
pub struct FileSystem {
    pub inodes: HashMap<u32, Inode>,
    pub next_inode: u32,
}

impl Inode {
    pub open spec fn view(&self) -> InodeView {
        InodeView {
            id: self.id,
            name: self.name@,
            inode_type: self.inode_type,
            content: self.content@,
            children: self.children@,
            parent: self.parent,
            size: self.size,
            created_at: self.created_at,
        }
    }
}

/// The text that `from_utf8_lossy` makes of `bytes`.
pub uninterp spec fn lossy_text(bytes: Seq<u8>) -> Seq<char>;

/// `String::from_utf8_lossy`, made an owned `String`. Trusted: the result is the lossy
/// decoding of the bytes, and for valid UTF-8 it is exactly the decoded text.
#[verifier::external_body]
fn text_from_bytes(b: &[u8]) -> (s: String)
    ensures
        !vstd::utf8::valid_utf8(b@) ==> s@ == lossy_text(b@),
        vstd::utf8::valid_utf8(b@) ==> s@ == vstd::utf8::decode_utf8(b@),
{
    String::from_utf8_lossy(b).into_owned()
}

// ---------------------------------------------------------------------------
// Paths

/// Splitting state after reading `s`: the finished non-empty segments and the one in progress.
pub open spec fn seg_state(s: Seq<char>) -> (Seq<Seq<char>>, Seq<char>)
    decreases s.len(),
{
    if s.len() == 0 {
        (Seq::empty(), Seq::empty())
    } else {
        let (done, cur) = seg_state(s.drop_last());
        if s.last() == '/' {
            if cur.len() > 0 {
                (done.push(cur), Seq::empty())
            } else {
                (done, cur)
            }
        } else {
            (done, cur.push(s.last()))
        }
    }
}

/// The non-empty `/`-separated components of a path, in order.
pub open spec fn segments(s: Seq<char>) -> Seq<Seq<char>> {
    let (done, cur) = seg_state(s);
    if cur.len() > 0 {
        done.push(cur)
    } else {
        done
    }
}

/// `s` without its trailing slashes.
pub open spec fn trim_end_slashes(s: Seq<char>) -> Seq<char>
    decreases s.len(),
{
    if s.len() > 0 && s.last() == '/' {
        trim_end_slashes(s.drop_last())
    } else {
        s
    }
}

/// Index of the last `/` in `s`, or -1.
pub open spec fn last_slash(s: Seq<char>) -> int
    decreases s.len(),
{
    if s.len() == 0 {
        -1
    } else if s.last() == '/' {
        s.len() - 1
    } else {
        last_slash(s.drop_last())
    }
}

/// A path split into its parent directory and last component.
pub open spec fn split_path_spec(p: Seq<char>) -> (Seq<char>, Seq<char>) {
    let t = trim_end_slashes(p);
    let pos = last_slash(t);
    if pos < 0 {
        ("/"@, t)
    } else {
        (if pos == 0 { "/"@ } else { t.take(pos) }, t.skip(pos + 1))
    }
}

// ---------------------------------------------------------------------------
// Lookup

/// The first child among `children` that exists in `m` and is named `name`.
pub open spec fn find_child(m: Map<u32, InodeView>, children: Seq<u32>, name: Seq<char>) -> Option<u32>
    decreases children.len(),
{
    if children.len() == 0 {
        None
    } else if m.contains_key(children[0]) && m[children[0]].name == name {
        Some(children[0])
    } else {
        find_child(m, children.drop_first(), name)
    }
}

/// Follows the components `parts` from inode `cur`.
pub open spec fn walk(m: Map<u32, InodeView>, cur: u32, parts: Seq<Seq<char>>) -> Option<u32>
    decreases parts.len(),
{
    if parts.len() == 0 {
        Some(cur)
    } else if !m.contains_key(cur) {
        None
    } else {
        match find_child(m, m[cur].children, parts[0]) {
            Some(c) => walk(m, c, parts.drop_first()),
            None => None,
        }
    }
}

/// The inode a path names, looked up from the root (inode 0).
pub open spec fn resolve_spec(m: Map<u32, InodeView>, path: Seq<char>) -> Option<u32> {
    walk(m, 0, segments(path))
}

/// How an entry is listed: directories get a trailing `/`.
pub open spec fn display_name(n: InodeView) -> Seq<char> {
    if n.inode_type == InodeType::Directory {
        n.name + "/"@
    } else {
        n.name
    }
}

/// The listed names of the existing inodes among `children`, in order.
pub open spec fn child_entries(m: Map<u32, InodeView>, children: Seq<u32>) -> Seq<Seq<char>>
    decreases children.len(),
{
    if children.len() == 0 {
        Seq::empty()
    } else {
        let rest = child_entries(m, children.drop_last());
        if m.contains_key(children.last()) {
            rest.push(display_name(m[children.last()]))
        } else {
            rest
        }
    }
}

/// The listing of the directory a path names; empty if it names no directory.
pub open spec fn list_dir_spec(m: Map<u32, InodeView>, path: Seq<char>) -> Seq<Seq<char>> {
    match resolve_spec(m, path) {
        Some(id) => if m.contains_key(id) && m[id].inode_type == InodeType::Directory {
            child_entries(m, m[id].children)
        } else {
            Seq::empty()
        },
        None => Seq::empty(),
    }
}

/// The text a file's bytes are read as: decoded when valid UTF-8, lossily otherwise.
pub open spec fn file_text(bytes: Seq<u8>) -> Seq<char> {
    if vstd::utf8::valid_utf8(bytes) {
        vstd::utf8::decode_utf8(bytes)
    } else {
        lossy_text(bytes)
    }
}

/// The text of the file a path names, if it names a file.
pub open spec fn read_spec(m: Map<u32, InodeView>, path: Seq<char>) -> Option<Seq<char>> {
    match resolve_spec(m, path) {
        Some(id) => if m.contains_key(id) && m[id].inode_type == InodeType::File {
            Some(file_text(m[id].content))
        } else {
            None
        },
        None => None,
    }
}

/// Whether a write to a path succeeds: it must name an existing file.
pub open spec fn write_ok(m: Map<u32, InodeView>, path: Seq<char>) -> bool {
    match resolve_spec(m, path) {
        Some(id) => m.contains_key(id) && m[id].inode_type == InodeType::File,
        None => false,
    }
}

/// The inodes after replacing the content of the file a path names with `text`.
pub open spec fn write_spec(m: Map<u32, InodeView>, path: Seq<char>, text: Seq<char>) -> Map<u32, InodeView> {
    if write_ok(m, path) {
        let id = resolve_spec(m, path)->0;
        let bytes = vstd::utf8::encode_utf8(text);
        m.insert(id, InodeView { content: bytes, size: bytes.len() as usize, ..m[id] })
    } else {
        m
    }
}

/// A fresh, empty inode, created at tick `t`.
pub open spec fn blank_inode(id: u32, name: Seq<char>, kind: InodeType, parent: Option<u32>, t: u64) -> InodeView {
    InodeView {
        id,
        name,
        inode_type: kind,
        content: Seq::empty(),
        children: Seq::empty(),
        parent,
        size: 0,
        created_at: t,
    }
}

/// The inodes after adding inode `id` named `name` under `parent` (and listing it there,
/// when `parent` exists), created at tick `t`.
pub open spec fn add_child(m: Map<u32, InodeView>, id: u32, name: Seq<char>, kind: InodeType, parent: u32, t: u64) -> Map<u32, InodeView> {
    let m1 = m.insert(id, blank_inode(id, name, kind, Some(parent), t));
    if m1.contains_key(parent) {
        m1.insert(parent, InodeView { children: m1[parent].children.push(id), ..m1[parent] })
    } else {
        m1
    }
}

/// Whether inode `id` exists and is a directory (only directories have children).
pub open spec fn is_dir_spec(m: Map<u32, InodeView>, id: u32) -> bool {
    m.contains_key(id) && m[id].inode_type == InodeType::Directory
}

/// Whether creating a path succeeds: its directory part names a directory and the path
/// itself does not resolve.
pub open spec fn create_ok(m: Map<u32, InodeView>, path: Seq<char>) -> bool {
    &&& resolve_spec(m, split_path_spec(path).0) is Some
    &&& is_dir_spec(m, resolve_spec(m, split_path_spec(path).0)->0)
    &&& resolve_spec(m, path) is None
}

/// The inodes after creating a path as inode `id` of kind `kind` at tick `t`.
pub open spec fn create_spec(m: Map<u32, InodeView>, id: u32, path: Seq<char>, kind: InodeType, t: u64) -> Map<u32, InodeView> {
    if create_ok(m, path) {
        add_child(m, id, split_path_spec(path).1, kind, resolve_spec(m, split_path_spec(path).0)->0, t)
    } else {
        m
    }
}

/// Whether deleting a path succeeds: it is not `"/"` and it resolves.
pub open spec fn delete_ok(m: Map<u32, InodeView>, path: Seq<char>) -> bool {
    path != "/"@ && resolve_spec(m, path) is Some
}

/// The inodes after deleting the inode a path names: it is unlisted from its parent and
/// removed (its own children are not removed).
pub open spec fn delete_spec(m: Map<u32, InodeView>, path: Seq<char>) -> Map<u32, InodeView> {
    if delete_ok(m, path) {
        let id = resolve_spec(m, path)->0;
        let m1 = if m.contains_key(id) && m[id].parent is Some && m.contains_key(m[id].parent->0) {
            let q = m[id].parent->0;
            m.insert(q, InodeView { children: without(m[q].children, id), ..m[q] })
        } else {
            m
        };
        m1.remove(id)
    } else {
        m
    }
}

/// Ids are below `next` (which is positive); every listed child exists, has a larger id
/// than its directory and names it as parent; contents are valid UTF-8.
pub open spec fn fs_wf(m: Map<u32, InodeView>, next: u32) -> bool {
    &&& next > 0
    &&& forall|k: u32| #[trigger] m.contains_key(k) ==> k < next
    &&& forall|k: u32, c: u32|
        m.contains_key(k) && #[trigger] m[k].children.contains(c) ==> {
            &&& k < c
            &&& m.contains_key(c)
            &&& m[c].parent == Some(k)
        }
    &&& forall|k: u32| #[trigger] m.contains_key(k) ==> vstd::utf8::valid_utf8(m[k].content)
}

/// A child found by name is one of the listed children and exists.
pub proof fn lemma_find_child(m: Map<u32, InodeView>, children: Seq<u32>, name: Seq<char>)
    ensures
        find_child(m, children, name) matches Some(c) ==> children.contains(c) && m.contains_key(c) && m[c].name == name,
    decreases children.len(),
{
    if children.len() > 0 {
        lemma_find_child(m, children.drop_first(), name);
        if let Some(c) = find_child(m, children.drop_first(), name) {
            let i = choose|i: int| 0 <= i < children.drop_first().len() && children.drop_first()[i] == c;
            assert(children[i + 1] == c);
        }
    }
}

/// A walk ends where it starts or at an existing inode.
pub proof fn lemma_walk_result(m: Map<u32, InodeView>, cur: u32, parts: Seq<Seq<char>>)
    ensures
        walk(m, cur, parts) matches Some(r) ==> r == cur || m.contains_key(r),
    decreases parts.len(),
{
    if parts.len() > 0 && m.contains_key(cur) {
        lemma_find_child(m, m[cur].children, parts[0]);
        if let Some(c) = find_child(m, m[cur].children, parts[0]) {
            lemma_walk_result(m, c, parts.drop_first());
        }
    }
}

proof fn lemma_empty_valid_utf8()
    ensures
        vstd::utf8::valid_utf8(Seq::<u8>::empty()),
{
    vstd::utf8::encode_utf8_valid_utf8(Seq::<char>::empty());
    assert(vstd::utf8::encode_utf8(Seq::<char>::empty()) =~= Seq::<u8>::empty());
}

/// Adding a child keeps the tree well formed.
pub proof fn lemma_add_child_wf(m: Map<u32, InodeView>, next: u32, name: Seq<char>, kind: InodeType, parent: u32, t: u64)
    requires
        fs_wf(m, next),
        next < u32::MAX,
        parent == 0 || m.contains_key(parent),
    ensures
        fs_wf(add_child(m, next, name, kind, parent, t), (next + 1) as u32),
{
    lemma_empty_valid_utf8();
    let m1 = m.insert(next, blank_inode(next, name, kind, Some(parent), t));
    let m2 = add_child(m, next, name, kind, parent, t);
    assert(parent != next);
    assert forall|k: u32, c: u32| m2.contains_key(k) && #[trigger] m2[k].children.contains(c) implies {
        &&& k < c
        &&& m2.contains_key(c)
        &&& m2[c].parent == Some(k)
    } by {
        if k == next {
            assert(m2[k].children =~= Seq::<u32>::empty());
        } else if k == parent && m1.contains_key(parent) {
            let i = choose|i: int| 0 <= i < m2[k].children.len() && m2[k].children[i] == c;
            if i < m[k].children.len() {
                assert(m[k].children[i] == c);
                assert(m[k].children.contains(c));
            }
        } else {
            assert(m2[k] == m[k]);
        }
    }
}

/// Replacing a file's content with encoded text keeps the tree well formed.
pub proof fn lemma_write_wf(m: Map<u32, InodeView>, next: u32, path: Seq<char>, text: Seq<char>)
    requires
        fs_wf(m, next),
    ensures
        fs_wf(write_spec(m, path, text), next),
{
    vstd::utf8::encode_utf8_valid_utf8(text);
    let m2 = write_spec(m, path, text);
    assert forall|k: u32, c: u32| m2.contains_key(k) && #[trigger] m2[k].children.contains(c) implies {
        &&& k < c
        &&& m2.contains_key(c)
        &&& m2[c].parent == Some(k)
    } by {
        assert(m2[k].children == m[k].children);
        assert(m[k].children.contains(c));
    }
}

/// Deleting keeps the tree well formed.
pub proof fn lemma_delete_wf(m: Map<u32, InodeView>, next: u32, path: Seq<char>)
    requires
        fs_wf(m, next),
    ensures
        fs_wf(delete_spec(m, path), next),
{
    if delete_ok(m, path) {
        let id = resolve_spec(m, path)->0;
        let m2 = delete_spec(m, path);
        assert forall|k: u32, c: u32| m2.contains_key(k) && #[trigger] m2[k].children.contains(c) implies {
            &&& k < c
            &&& m2.contains_key(c)
            &&& m2[c].parent == Some(k)
        } by {
            if m.contains_key(id) && m[id].parent is Some && m.contains_key(m[id].parent->0) && k == m[id].parent->0 {
                crate::kernel::scheduler::lemma_without(m[k].children, id);
                assert(m[k].children.contains(c));
                assert(c != id);
            } else {
                assert(m2[k] == m[k]);
                assert(m[k].children.contains(c));
                if c == id {
                    assert(m[id].parent == Some(k));
                }
            }
        }
    }
}

/// Text of `/home/readme.txt` at boot.
pub const README_TEXT: &'static str = "Welcome to rust-minios!\nA micro OS simulator built in Rust.\n";

/// Text of `/home/hello.txt` at boot.
pub const HELLO_TEXT: &'static str = "Hello, World!\n";

/// Text of the demo script `/home/demo.sh` at boot.
pub const DEMO_TEXT: &'static str = "# demo.sh - rust-minios demo script
# Usage: run /home/demo.sh

echo === rust-minios Script Demo ===

# Variable assignment and expansion
NAME=rust-minios
echo Hello from $NAME!

# Create directory and file
mkdir /tmp/demo
touch /tmp/demo/output.txt
echo Script started > /tmp/demo/output.txt

# for loop: launch multiple processes
echo --- Launching workers ---
for W in alpha beta gamma
  exec $W
  echo Started worker: $W
end

# Show process list
echo --- Process list ---
ps

# if/else condition: check if file exists
if exists /tmp/demo/output.txt
  echo Output file exists!
  cat /tmp/demo/output.txt
else
  echo Output file not found.
end

# Memory allocation
echo --- Memory allocation ---
malloc 4096
free

echo === Demo complete ===
";

/// The inodes after creating a file with the given text at a path whose directory resolves
/// (no check that the path is new); unchanged when the directory does not resolve.
pub open spec fn create_with_text_spec(m: Map<u32, InodeView>, id: u32, path: Seq<char>, text: Seq<char>) -> Map<u32, InodeView> {
    match resolve_spec(m, split_path_spec(path).0) {
        Some(dir) => {
            let m1 = add_child(m, id, split_path_spec(path).1, InodeType::File, dir, 0);
            let bytes = vstd::utf8::encode_utf8(text);
            m1.insert(id, InodeView { content: bytes, size: bytes.len() as usize, ..m1[id] })
        },
        None => m,
    }
}

/// A directory inode at boot.
pub open spec fn boot_dir(id: u32, name: Seq<char>, children: Seq<u32>, parent: Option<u32>) -> InodeView {
    InodeView { children, ..blank_inode(id, name, InodeType::Directory, parent, 0) }
}

/// A file inode under `/home` at boot.
pub open spec fn boot_file(id: u32, name: Seq<char>, text: Seq<char>) -> InodeView {
    let bytes = vstd::utf8::encode_utf8(text);
    InodeView { content: bytes, size: bytes.len() as usize, ..blank_inode(id, name, InodeType::File, Some(2), 0) }
}

/// The tree at boot: `/` with `kernel`, `home`, `tmp`, `dev`, and three files in `/home`.
pub open spec fn boot_tree() -> Map<u32, InodeView> {
    map![
        0u32 => boot_dir(0, "/"@, seq![1u32, 2, 3, 4], None),
        1u32 => boot_dir(1, "kernel"@, Seq::empty(), Some(0)),
        2u32 => boot_dir(2, "home"@, seq![5u32, 6, 7], Some(0)),
        3u32 => boot_dir(3, "tmp"@, Seq::empty(), Some(0)),
        4u32 => boot_dir(4, "dev"@, Seq::empty(), Some(0)),
        5u32 => boot_file(5, "readme.txt"@, README_TEXT@),
        6u32 => boot_file(6, "hello.txt"@, HELLO_TEXT@),
        7u32 => boot_file(7, "demo.sh"@, DEMO_TEXT@),
    ]
}

proof fn lemma_boot_split(p: &str, name: &str)
    requires
        p@ == "/home/"@ + name@,
        name@.len() > 0,
        !name@.contains('/'),
        name@.last() != '/',
    ensures
        split_path_spec(p@) == ("/home"@, name@),
{
    reveal_strlit("/home/");
    reveal_strlit("/home");
    let s = p@;
    assert(trim_end_slashes(s) == s);
    assert forall|k: int| 6 <= k <= s.len() implies last_slash(#[trigger] s.take(k)) == 5 by {
        lemma_last_slash_suffix(s, k);
    }
    assert(s.take(s.len() as int) =~= s);
    assert(s.take(5) =~= "/home"@);
    assert(s.skip(6) =~= name@);
}

proof fn lemma_last_slash_suffix(s: Seq<char>, k: int)
    requires
        6 <= k <= s.len(),
        s[5] == '/',
        forall|i: int| 6 <= i < s.len() ==> s[i] != '/',
    ensures
        last_slash(s.take(k)) == 5,
    decreases k,
{
    if k > 6 {
        assert(s.take(k).drop_last() =~= s.take(k - 1));
        lemma_last_slash_suffix(s, k - 1);
    }
}

/// In a tree whose root lists `kernel` then `home` (ids 1 and 2), `/home` names inode 2.
proof fn lemma_home_resolves(m: Map<u32, InodeView>)
    requires
        m.contains_key(0),
        m[0].children.len() >= 2,
        m[0].children[0] == 1,
        m[0].children[1] == 2,
        m.contains_key(1),
        m[1].name == "kernel"@,
        m.contains_key(2),
        m[2].name == "home"@,
    ensures
        resolve_spec(m, "/home"@) == Some(2u32),
{
    reveal_strlit("/home");
    reveal_strlit("kernel");
    reveal_strlit("home");
    let s = "/home"@;
    assert(s.take(1).drop_last() =~= s.take(0));
    assert(s.take(2).drop_last() =~= s.take(1));
    assert(s.take(3).drop_last() =~= s.take(2));
    assert(s.take(4).drop_last() =~= s.take(3));
    assert(s.take(5).drop_last() =~= s.take(4));
    assert(s.take(5) =~= s);
    assert(seg_state(s.take(0)) == (Seq::<Seq<char>>::empty(), Seq::<char>::empty()));
    assert(seg_state(s.take(1)) == (Seq::<Seq<char>>::empty(), Seq::<char>::empty()));
    assert(seg_state(s.take(2)).1 =~= seq!['h']);
    assert(seg_state(s.take(3)).1 =~= seq!['h', 'o']);
    assert(seg_state(s.take(4)).1 =~= seq!['h', 'o', 'm']);
    assert(seg_state(s.take(5)).1 =~= seq!['h', 'o', 'm', 'e']);
    assert(seg_state(s.take(5)).0 =~= Seq::<Seq<char>>::empty());
    assert(seq!['h', 'o', 'm', 'e'] =~= "home"@);
    assert(seg_state(s) == seg_state(s.take(5)));
    assert(segments(s) =~= seq!["home"@]);
    assert(m[1].name != "home"@);
    let ch = m[0].children;
    assert(ch.drop_first()[0] == 2);
    assert(find_child(m, ch, "home"@) == find_child(m, ch.drop_first(), "home"@));
    assert(find_child(m, ch, "home"@) == Some(2u32));
    assert(seq!["home"@].drop_first() =~= Seq::<Seq<char>>::empty());
    assert(seq!["home"@][0] == "home"@);
    assert(walk(m, 2, Seq::empty()) == Some(2u32));
    assert(walk(m, 0, seq!["home"@]) == Some(2u32));
}

/// The boot tree is well formed.
proof fn lemma_boot_wf()
    ensures
        fs_wf(boot_tree(), 8),
{
    let m = boot_tree();
    lemma_empty_valid_utf8();
    vstd::utf8::encode_utf8_valid_utf8(README_TEXT@);
    vstd::utf8::encode_utf8_valid_utf8(HELLO_TEXT@);
    vstd::utf8::encode_utf8_valid_utf8(DEMO_TEXT@);
    assert forall|k: u32, c: u32| m.contains_key(k) && #[trigger] m[k].children.contains(c) implies {
        &&& k < c
        &&& m.contains_key(c)
        &&& m[c].parent == Some(k)
    } by {
        let i = choose|i: int| 0 <= i < m[k].children.len() && m[k].children[i] == c;
        if k == 0 {
            assert(i < 4);
        } else if k == 2 {
            assert(i < 3);
        }
    }
}

/// Tree branch drawn before an entry: the last child of a directory gets `└── `.
pub open spec fn branch(last: bool) -> Seq<char> {
    if last { "└── "@ } else { "├── "@ }
}

/// Indentation a child adds below a non-root entry.
pub open spec fn continuation(last: bool) -> Seq<char> {
    if last { "    "@ } else { "│   "@ }
}

/// The tree drawing of inode `id` and what lies below it, one entry per line. The root is
/// drawn by its name; any other entry as `indent`, a branch (`└── ` for the last of its
/// siblings, `├── ` for the others) and its name, with `/` after a directory's name. The
/// entries below a non-root entry are indented by `│   ` more, or by four spaces when it is
/// the last of its siblings.
pub open spec fn tree_node(m: Map<u32, InodeView>, id: u32, indent: Seq<char>, last: bool) -> Seq<char>
    decreases u32::MAX - id, if m.contains_key(id) { m[id].children.len() + 1 } else { 0 },
{
    if !m.contains_key(id) {
        Seq::empty()
    } else {
        let n = m[id];
        let line = if id == 0 { n.name } else { indent + branch(last) + display_name(n) };
        let head = line + "\n"@;
        if n.inode_type == InodeType::Directory {
            let below = if id == 0 { Seq::empty() } else { indent + continuation(last) };
            head + tree_children(m, id, below, n.children, n.children.len())
        } else {
            head
        }
    }
}

/// The drawings of the first `k` of `children` (those numbered above `id`), each indented
/// by `below`.
pub open spec fn tree_children(m: Map<u32, InodeView>, id: u32, below: Seq<char>, children: Seq<u32>, k: nat) -> Seq<char>
    decreases u32::MAX - id, k,
{
    if k == 0 || k > children.len() {
        Seq::empty()
    } else {
        let prev = tree_children(m, id, below, children, (k - 1) as nat);
        let c = children[k - 1];
        if c > id {
            prev + tree_node(m, c, below, k == children.len())
        } else {
            prev
        }
    }
}

// ---------------------------------------------------------------------------
// Laws

/// `find_child` only looks at the names of existing inodes.
proof fn lemma_find_child_same(m1: Map<u32, InodeView>, m2: Map<u32, InodeView>, ch: Seq<u32>, name: Seq<char>)
    requires
        forall|i: int| 0 <= i < ch.len() ==> (m1.contains_key(#[trigger] ch[i]) <==> m2.contains_key(ch[i])),
        forall|i: int| 0 <= i < ch.len() && m1.contains_key(#[trigger] ch[i]) ==> m1[ch[i]].name == m2[ch[i]].name,
    ensures
        find_child(m1, ch, name) == find_child(m2, ch, name),
    decreases ch.len(),
{
    if ch.len() > 0 {
        assert forall|i: int| 0 <= i < ch.drop_first().len() implies (m1.contains_key(#[trigger] ch.drop_first()[i]) <==> m2.contains_key(ch.drop_first()[i])) by {
            assert(ch.drop_first()[i] == ch[i + 1]);
        }
        assert forall|i: int| 0 <= i < ch.drop_first().len() && m1.contains_key(#[trigger] ch.drop_first()[i]) implies m1[ch.drop_first()[i]].name == m2[ch.drop_first()[i]].name by {
            assert(ch.drop_first()[i] == ch[i + 1]);
        }
        lemma_find_child_same(m1, m2, ch.drop_first(), name);
    }
}

/// Walks agree in two tables that hold the same inodes with the same names and children.
proof fn lemma_walk_same_shape(m1: Map<u32, InodeView>, m2: Map<u32, InodeView>, cur: u32, parts: Seq<Seq<char>>)
    requires
        m1.dom() == m2.dom(),
        forall|k: u32| #[trigger] m1.contains_key(k) ==> m1[k].name == m2[k].name && m1[k].children == m2[k].children,
    ensures
        walk(m1, cur, parts) == walk(m2, cur, parts),
    decreases parts.len(),
{
    if parts.len() > 0 && m1.contains_key(cur) {
        assert(m2.contains_key(cur));
        let ch = m1[cur].children;
        assert forall|i: int| 0 <= i < ch.len() && m1.contains_key(#[trigger] ch[i]) implies m1[ch[i]].name == m2[ch[i]].name by {
            assert(m1.contains_key(ch[i]));
        }
        assert forall|i: int| 0 <= i < ch.len() implies (m1.contains_key(#[trigger] ch[i]) <==> m2.contains_key(ch[i])) by {
            assert(m1.dom().contains(ch[i]) == m2.dom().contains(ch[i]));
        }
        lemma_find_child_same(m1, m2, ch, parts[0]);
        if let Some(c) = find_child(m1, ch, parts[0]) {
            lemma_walk_same_shape(m1, m2, c, parts.drop_first());
        }
    } else if parts.len() > 0 {
        assert(!m2.contains_key(cur));
    }
}

/// What a read gives back of a write: after a successful write of `text` to a path,
/// reading that path gives `text`.
pub proof fn law_read_after_write(m: Map<u32, InodeView>, next: u32, path: Seq<char>, text: Seq<char>)
    requires
        fs_wf(m, next),
        write_ok(m, path),
    ensures
        read_spec(write_spec(m, path, text), path) == Some(text),
{
    let m2 = write_spec(m, path, text);
    let id = resolve_spec(m, path)->0;
    assert(m2.dom() =~= m.dom());
    lemma_walk_same_shape(m, m2, 0, segments(path));
    vstd::utf8::encode_utf8_valid_utf8(text);
    vstd::utf8::encode_utf8_decode_utf8(text);
}

/// A write changes nothing but the content of the file written: every path resolves as
/// before, and every other file reads as before.
pub proof fn law_write_preserves_others(m: Map<u32, InodeView>, path: Seq<char>, text: Seq<char>, other: Seq<char>)
    requires
        resolve_spec(m, other) != resolve_spec(m, path),
    ensures
        resolve_spec(write_spec(m, path, text), other) == resolve_spec(m, other),
        read_spec(write_spec(m, path, text), other) == read_spec(m, other),
{
    let m2 = write_spec(m, path, text);
    assert(m2.dom() =~= m.dom());
    lemma_walk_same_shape(m, m2, 0, segments(other));
}

proof fn lemma_seg_state_no_slash(s: Seq<char>)
    requires
        !s.contains('/'),
    ensures
        seg_state(s) == (Seq::<Seq<char>>::empty(), s),
    decreases s.len(),
{
    if s.len() > 0 {
        assert(!s.drop_last().contains('/')) by {
            if s.drop_last().contains('/') {
                let i = choose|i: int| 0 <= i < s.drop_last().len() && s.drop_last()[i] == '/';
                assert(s[i] == '/');
            }
        }
        lemma_seg_state_no_slash(s.drop_last());
        assert(s.last() != '/') by {
            assert(s[s.len() - 1] == s.last());
        }
        assert(s.drop_last().push(s.last()) =~= s);
    }
}

proof fn lemma_seg_state_after_slash(a: Seq<char>, b: Seq<char>)
    requires
        !b.contains('/'),
    ensures
        seg_state(a + seq!['/'] + b) == (segments(a), b),
    decreases b.len(),
{
    if b.len() == 0 {
        assert((a + seq!['/'] + b).drop_last() =~= a);
        assert(a + seq!['/'] + b =~= a.push('/'));
    } else {
        assert(!b.drop_last().contains('/')) by {
            if b.drop_last().contains('/') {
                let i = choose|i: int| 0 <= i < b.drop_last().len() && b.drop_last()[i] == '/';
                assert(b[i] == '/');
            }
        }
        lemma_seg_state_after_slash(a, b.drop_last());
        assert((a + seq!['/'] + b).drop_last() =~= a + seq!['/'] + b.drop_last());
        assert(b.last() != '/') by {
            assert(b[b.len() - 1] == b.last());
        }
        assert(b.drop_last().push(b.last()) =~= b);
    }
}

proof fn lemma_segments_trailing(p: Seq<char>)
    ensures
        segments(p) == segments(trim_end_slashes(p)),
        trim_end_slashes(p).len() > 0 ==> trim_end_slashes(p).last() != '/',
        trim_end_slashes(p).len() <= p.len(),
    decreases p.len(),
{
    if p.len() > 0 && p.last() == '/' {
        lemma_segments_trailing(p.drop_last());
    }
}

proof fn lemma_last_slash(t: Seq<char>)
    ensures
        -1 <= last_slash(t) < t.len(),
        last_slash(t) >= 0 ==> t[last_slash(t)] == '/',
        forall|i: int| last_slash(t) < i < t.len() ==> t[i] != '/',
    decreases t.len(),
{
    if t.len() > 0 && t.last() != '/' {
        lemma_last_slash(t.drop_last());
        assert forall|i: int| last_slash(t) < i < t.len() implies t[i] != '/' by {
            if i < t.len() - 1 {
                assert(t.drop_last()[i] == t[i]);
            }
        }
    }
}

/// How a path's components relate to its directory part and last component.
proof fn lemma_split_segments(p: Seq<char>)
    ensures
        split_path_spec(p).1.len() == 0 ==> segments(p).len() == 0,
        split_path_spec(p).1.len() > 0 ==> segments(p) == segments(split_path_spec(p).0).push(split_path_spec(p).1),
{
    let t = trim_end_slashes(p);
    lemma_segments_trailing(p);
    lemma_last_slash(t);
    let pos = last_slash(t);
    reveal_strlit("/");
    assert("/"@ =~= Seq::<char>::empty().push('/'));
    assert(seg_state("/"@) == seg_state(Seq::<char>::empty().push('/')));
    assert(Seq::<char>::empty().push('/').drop_last() =~= Seq::<char>::empty());
    assert(seg_state(Seq::<char>::empty()) == (Seq::<Seq<char>>::empty(), Seq::<char>::empty()));
    assert(Seq::<char>::empty().push('/').last() == '/');
    assert(seg_state(Seq::<char>::empty().push('/')) == (Seq::<Seq<char>>::empty(), Seq::<char>::empty()));
    assert(segments("/"@) =~= Seq::<Seq<char>>::empty());
    if pos < 0 {
        assert(!t.contains('/')) by {
            if t.contains('/') {
                let i = choose|i: int| 0 <= i < t.len() && t[i] == '/';
            }
        }
        lemma_seg_state_no_slash(t);
    } else {
        let f = t.skip(pos + 1);
        assert(!f.contains('/')) by {
            if f.contains('/') {
                let i = choose|i: int| 0 <= i < f.len() && f[i] == '/';
                assert(t[pos + 1 + i] == '/');
            }
        }
        assert(t =~= t.take(pos) + seq!['/'] + f);
        lemma_seg_state_after_slash(t.take(pos), f);
        if pos == 0 {
            assert(t.take(0) =~= Seq::<char>::empty());
            assert(segments(Seq::<char>::empty()) =~= Seq::<Seq<char>>::empty());
        }
        if f.len() == 0 {
            assert(t.last() == '/');
        }
    }
}

proof fn lemma_walk_append(m: Map<u32, InodeView>, x: u32, a: Seq<Seq<char>>, b: Seq<Seq<char>>)
    ensures
        walk(m, x, a + b) == (match walk(m, x, a) {
            Some(y) => walk(m, y, b),
            None => None,
        }),
    decreases a.len(),
{
    if a.len() == 0 {
        assert(a + b =~= b);
    } else {
        assert((a + b)[0] == a[0]);
        assert((a + b).drop_first() =~= a.drop_first() + b);
        if m.contains_key(x) {
            if let Some(c) = find_child(m, m[x].children, a[0]) {
                lemma_walk_append(m, c, a.drop_first(), b);
            }
        }
    }
}

proof fn lemma_find_child_push(m: Map<u32, InodeView>, ch: Seq<u32>, x: u32, name: Seq<char>)
    ensures
        find_child(m, ch.push(x), name) == (match find_child(m, ch, name) {
            Some(c) => Some(c),
            None => if m.contains_key(x) && m[x].name == name { Some(x) } else { None },
        }),
    decreases ch.len(),
{
    if ch.len() == 0 {
        assert(ch.push(x).drop_first() =~= Seq::<u32>::empty());
    } else {
        assert(ch.push(x)[0] == ch[0]);
        assert(ch.push(x).drop_first() =~= ch.drop_first().push(x));
        lemma_find_child_push(m, ch.drop_first(), x, name);
    }
}

/// Along a walk, ids strictly increase.
proof fn lemma_walk_increases(m: Map<u32, InodeView>, next: u32, x: u32, parts: Seq<Seq<char>>)
    requires
        fs_wf(m, next),
        parts.len() > 0,
        walk(m, x, parts) is Some,
    ensures
        x < walk(m, x, parts)->0,
        m.contains_key(walk(m, x, parts)->0),
    decreases parts.len(),
{
    lemma_find_child(m, m[x].children, parts[0]);
    let c = find_child(m, m[x].children, parts[0])->0;
    assert(m[x].children.contains(c));
    if parts.len() > 1 {
        lemma_walk_increases(m, next, c, parts.drop_first());
    }
}

/// Adding a child below `dir` leaves every walk that ends at `dir` unchanged.
proof fn lemma_walk_add(m: Map<u32, InodeView>, next: u32, name: Seq<char>, kind: InodeType, dir: u32, x: u32, parts: Seq<Seq<char>>, t: u64)
    requires
        fs_wf(m, next),
        walk(m, x, parts) == Some(dir),
    ensures
        walk(add_child(m, next, name, kind, dir, t), x, parts) == Some(dir),
    decreases parts.len(),
{
    let m2 = add_child(m, next, name, kind, dir, t);
    if parts.len() > 0 {
        lemma_walk_increases(m, next, x, parts);
        lemma_find_child(m, m[x].children, parts[0]);
        let c = find_child(m, m[x].children, parts[0])->0;
        assert(m[x].children.contains(c));
        if parts.len() > 1 {
            lemma_walk_increases(m, next, c, parts.drop_first());
        }
        assert(x != dir);
        assert(x != next);
        assert(m2[x] == m[x]);
        let ch = m[x].children;
        assert forall|i: int| 0 <= i < ch.len() implies (m.contains_key(#[trigger] ch[i]) <==> m2.contains_key(ch[i])) by {
            assert(ch.contains(ch[i]));
        }
        assert forall|i: int| 0 <= i < ch.len() && m.contains_key(#[trigger] ch[i]) implies m[ch[i]].name == m2[ch[i]].name by {
            assert(ch.contains(ch[i]));
        }
        lemma_find_child_same(m, m2, ch, parts[0]);
        lemma_walk_add(m, next, name, kind, dir, c, parts.drop_first(), t);
    }
}

/// No directory lists two existing entries of the same name.
pub open spec fn sibling_names_unique(m: Map<u32, InodeView>) -> bool {
    forall|k: u32, a: u32, b: u32|
        #![trigger m[k].children.contains(a), m[k].children.contains(b)]
        m.contains_key(k) && m[k].children.contains(a) && m[k].children.contains(b) && m.contains_key(a)
            && m.contains_key(b) && m[a].name == m[b].name ==> a == b
}

/// A name that exactly one listed, existing child carries finds that child.
proof fn lemma_find_child_unique(m: Map<u32, InodeView>, ch: Seq<u32>, name: Seq<char>, c: u32)
    requires
        ch.contains(c),
        m.contains_key(c),
        m[c].name == name,
        forall|d: u32| #[trigger] ch.contains(d) && m.contains_key(d) && m[d].name == name ==> d == c,
    ensures
        find_child(m, ch, name) == Some(c),
    decreases ch.len(),
{
    assert(ch.contains(ch[0]));
    if !(m.contains_key(ch[0]) && m[ch[0]].name == name) {
        let i = choose|i: int| 0 <= i < ch.len() && ch[i] == c;
        assert(i > 0);
        assert(ch.drop_first()[i - 1] == c);
        assert forall|d: u32| #[trigger] ch.drop_first().contains(d) && m.contains_key(d) && m[d].name == name implies d == c by {
            let j = choose|j: int| 0 <= j < ch.drop_first().len() && ch.drop_first()[j] == d;
            assert(ch[j + 1] == d);
            assert(ch.contains(d));
        }
        lemma_find_child_unique(m, ch.drop_first(), name, c);
    }
}

/// A name that no listed, existing child carries finds nothing.
proof fn lemma_find_child_none(m: Map<u32, InodeView>, ch: Seq<u32>, name: Seq<char>)
    requires
        forall|d: u32| #[trigger] ch.contains(d) ==> !(m.contains_key(d) && m[d].name == name),
    ensures
        find_child(m, ch, name) is None,
    decreases ch.len(),
{
    if ch.len() > 0 {
        assert(ch.contains(ch[0]));
        assert forall|d: u32| #[trigger] ch.drop_first().contains(d) implies !(m.contains_key(d) && m[d].name == name) by {
            let j = choose|j: int| 0 <= j < ch.drop_first().len() && ch.drop_first()[j] == d;
            assert(ch[j + 1] == d);
            assert(ch.contains(d));
        }
        lemma_find_child_none(m, ch.drop_first(), name);
    }
}

/// A walk that ended at `id` finds nothing once `id` is gone, when the other inodes keep
/// their names and lose at most `id` from their listings.
proof fn lemma_walk_deleted(m: Map<u32, InodeView>, next: u32, id: u32, m2: Map<u32, InodeView>, x: u32, parts: Seq<Seq<char>>)
    requires
        fs_wf(m, next),
        sibling_names_unique(m),
        parts.len() > 0,
        walk(m, x, parts) == Some(id),
        !m2.contains_key(id),
        forall|k: u32| k != id ==> (m2.contains_key(k) <==> m.contains_key(k)),
        forall|k: u32| #[trigger] m2.contains_key(k) ==> m2[k].name == m[k].name,
        forall|k: u32, d: u32| m2.contains_key(k) && #[trigger] m2[k].children.contains(d) ==> m[k].children.contains(d),
        forall|k: u32, d: u32| m2.contains_key(k) && d != id && #[trigger] m[k].children.contains(d) ==> m2[k].children.contains(d),
    ensures
        walk(m2, x, parts) is None,
    decreases parts.len(),
{
    lemma_walk_increases(m, next, x, parts);
    lemma_find_child(m, m[x].children, parts[0]);
    let c = find_child(m, m[x].children, parts[0])->0;
    assert(m[x].children.contains(c));
    if m2.contains_key(x) {
        let ch2 = m2[x].children;
        if parts.len() == 1 {
            assert(parts.drop_first().len() == 0);
            assert(walk(m, c, parts.drop_first()) == Some(c));
            assert(c == id);
            assert forall|d: u32| #[trigger] ch2.contains(d) implies !(m2.contains_key(d) && m2[d].name == parts[0]) by {
                if m2.contains_key(d) && m2[d].name == parts[0] {
                    assert(m[x].children.contains(d));
                    assert(m[x].children.contains(id));
                }
            }
            lemma_find_child_none(m2, ch2, parts[0]);
        } else {
            lemma_walk_increases(m, next, c, parts.drop_first());
            assert(c != id);
            assert(m2.contains_key(c));
            assert(ch2.contains(c));
            assert forall|d: u32| #[trigger] ch2.contains(d) && m2.contains_key(d) && m2[d].name == parts[0] implies d == c by {
                assert(m[x].children.contains(d));
                assert(m[x].children.contains(c));
            }
            lemma_find_child_unique(m2, ch2, parts[0], c);
            lemma_walk_deleted(m, next, id, m2, c, parts.drop_first());
        }
    }
}

/// Deleting a path that names an inode other than the root removes that inode and no other
/// (what lay below it stays, unlisted), and, where no directory lists two entries of one
/// name, the path no longer resolves.
pub proof fn law_delete_then_resolve(m: Map<u32, InodeView>, next: u32, path: Seq<char>)
    requires
        fs_wf(m, next),
        sibling_names_unique(m),
        delete_ok(m, path),
        resolve_spec(m, path) != Some(0u32),
    ensures
        delete_spec(m, path).dom() == m.dom().remove(resolve_spec(m, path)->0),
        resolve_spec(delete_spec(m, path), path) is None,
{
    let id = resolve_spec(m, path)->0;
    let parts = segments(path);
    assert(parts.len() > 0);
    lemma_walk_increases(m, next, 0, parts);
    let m2 = delete_spec(m, path);
    if m[id].parent is Some && m.contains_key(m[id].parent->0) {
        let q = m[id].parent->0;
        lemma_without(m[q].children, id);
    }
    lemma_walk_deleted(m, next, id, m2, 0, parts);
    assert(m2.dom() =~= m.dom().remove(id));
}

/// A child that exists and carries the name is found (or an earlier one of that name is).
proof fn lemma_find_child_some(m: Map<u32, InodeView>, ch: Seq<u32>, name: Seq<char>, d: u32)
    requires
        ch.contains(d),
        m.contains_key(d),
        m[d].name == name,
    ensures
        find_child(m, ch, name) is Some,
    decreases ch.len(),
{
    if !(m.contains_key(ch[0]) && m[ch[0]].name == name) {
        let i = choose|i: int| 0 <= i < ch.len() && ch[i] == d;
        assert(i > 0);
        assert(ch.drop_first()[i - 1] == d);
        lemma_find_child_some(m, ch.drop_first(), name, d);
    }
}

/// Creating a path keeps the entries of every directory distinctly named.
pub proof fn law_create_keeps_names_unique(m: Map<u32, InodeView>, next: u32, path: Seq<char>, kind: InodeType, t: u64)
    requires
        fs_wf(m, next),
        next < u32::MAX,
        sibling_names_unique(m),
    ensures
        sibling_names_unique(create_spec(m, next, path, kind, t)),
{
    if create_ok(m, path) {
        let (d, f) = split_path_spec(path);
        lemma_split_segments(path);
        let dir = resolve_spec(m, d)->0;
        assert(f.len() > 0);
        assert(segments(d).push(f) =~= segments(d) + seq![f]);
        lemma_walk_append(m, 0, segments(d), seq![f]);
        assert(seq![f][0] == f);
        assert(seq![f].drop_first() =~= Seq::<Seq<char>>::empty());
        assert(walk(m, dir, seq![f]) is None);
        if m.contains_key(dir) {
            if let Some(c) = find_child(m, m[dir].children, f) {
                assert(walk(m, c, seq![f].drop_first()) == Some(c));
            }
            assert(find_child(m, m[dir].children, f) is None);
        }
        lemma_walk_result(m, 0, segments(d));
        assert(dir != next);
        let m2 = add_child(m, next, f, kind, dir, t);
        assert(!m.contains_key(next));
        assert(m2[next].children =~= Seq::<u32>::empty());
        assert forall|k: u32, a: u32, b: u32|
            #![trigger m2[k].children.contains(a), m2[k].children.contains(b)]
            m2.contains_key(k) && m2[k].children.contains(a) && m2[k].children.contains(b) && m2.contains_key(a)
                && m2.contains_key(b) && m2[a].name == m2[b].name implies a == b by {
            if k == next {
                assert(m2[next].children.len() == 0);
            } else if k == dir && m.contains_key(dir) {
                let ch = m[dir].children;
                assert(m2[dir].children == ch.push(next));
                if a != next {
                    let i = choose|i: int| 0 <= i < ch.push(next).len() && ch.push(next)[i] == a;
                    assert(i < ch.len() && ch[i] == a);
                    assert(ch.contains(a));
                    assert(m.contains_key(a) && m2[a].name == m[a].name);
                }
                if b != next {
                    let i = choose|i: int| 0 <= i < ch.push(next).len() && ch.push(next)[i] == b;
                    assert(i < ch.len() && ch[i] == b);
                    assert(ch.contains(b));
                    assert(m.contains_key(b) && m2[b].name == m[b].name);
                }
                if a == next && b != next {
                    lemma_find_child_some(m, ch, f, b);
                } else if b == next && a != next {
                    lemma_find_child_some(m, ch, f, a);
                } else if a != next && b != next {
                    assert(m[dir].children.contains(a) && m[dir].children.contains(b));
                }
            } else {
                assert(m2[k] == m[k]);
                assert(m.contains_key(a) && m.contains_key(b));
                assert(m2[a].name == m[a].name && m2[b].name == m[b].name);
                assert(m[k].children.contains(a) && m[k].children.contains(b));
            }
        }
    }
}

/// Deleting a path keeps the entries of every directory distinctly named.
pub proof fn law_delete_keeps_names_unique(m: Map<u32, InodeView>, path: Seq<char>)
    requires
        sibling_names_unique(m),
    ensures
        sibling_names_unique(delete_spec(m, path)),
{
    if delete_ok(m, path) {
        let id = resolve_spec(m, path)->0;
        let m2 = delete_spec(m, path);
        if m.contains_key(id) && m[id].parent is Some && m.contains_key(m[id].parent->0) {
            lemma_without(m[m[id].parent->0].children, id);
        }
        assert forall|k: u32, a: u32, b: u32|
            #![trigger m2[k].children.contains(a), m2[k].children.contains(b)]
            m2.contains_key(k) && m2[k].children.contains(a) && m2[k].children.contains(b) && m2.contains_key(a)
                && m2.contains_key(b) && m2[a].name == m2[b].name implies a == b by {
            assert(m[k].children.contains(a) && m[k].children.contains(b));
        }
    }
}

/// Writing a file keeps the entries of every directory distinctly named.
pub proof fn law_write_keeps_names_unique(m: Map<u32, InodeView>, path: Seq<char>, text: Seq<char>)
    requires
        sibling_names_unique(m),
    ensures
        sibling_names_unique(write_spec(m, path, text)),
{
    let m2 = write_spec(m, path, text);
    assert forall|k: u32, a: u32, b: u32|
        #![trigger m2[k].children.contains(a), m2[k].children.contains(b)]
        m2.contains_key(k) && m2[k].children.contains(a) && m2[k].children.contains(b) && m2.contains_key(a)
            && m2.contains_key(b) && m2[a].name == m2[b].name implies a == b by {
        assert(m[k].children.contains(a) && m[k].children.contains(b));
    }
}

/// At boot the entries of every directory are distinctly named.
pub proof fn law_boot_names_unique()
    ensures
        sibling_names_unique(boot_tree()),
{
    let m = boot_tree();
    reveal_strlit("/");
    reveal_strlit("kernel");
    reveal_strlit("home");
    reveal_strlit("tmp");
    reveal_strlit("dev");
    reveal_strlit("readme.txt");
    reveal_strlit("hello.txt");
    reveal_strlit("demo.sh");
    assert forall|k: u32, a: u32, b: u32|
        #![trigger m[k].children.contains(a), m[k].children.contains(b)]
        m.contains_key(k) && m[k].children.contains(a) && m[k].children.contains(b) && m.contains_key(a)
            && m.contains_key(b) && m[a].name == m[b].name implies a == b by {
        let ch = m[k].children;
        if k == 0 {
            assert(ch == seq![1u32, 2, 3, 4]);
            let i = choose|i: int| 0 <= i < ch.len() && ch[i] == a;
            let j = choose|j: int| 0 <= j < ch.len() && ch[j] == b;
            assert(m[1].name.len() == 6 && m[2].name.len() == 4 && m[3].name.len() == 3 && m[4].name.len() == 3);
            assert(m[3].name[0] == 't' && m[4].name[0] == 'd');
            assert(m[2].name[0] == 'h');
        } else if k == 2 {
            assert(ch == seq![5u32, 6, 7]);
            let i = choose|i: int| 0 <= i < ch.len() && ch[i] == a;
            let j = choose|j: int| 0 <= j < ch.len() && ch[j] == b;
            assert(m[5].name.len() == 10 && m[6].name.len() == 9 && m[7].name.len() == 7);
        } else {
            assert(ch.len() == 0);
        }
    }
}

/// What a created path resolves to: after creating a path, the path names the new inode, a blank inode of the asked kind named after the
/// path's last segment under the path's directory, which reads as an empty file or lists as
/// an empty directory; creating the same path again is refused (and so changes nothing).
pub proof fn law_create_then_resolve(m: Map<u32, InodeView>, next: u32, path: Seq<char>, kind: InodeType, t: u64)
    requires
        fs_wf(m, next),
        next < u32::MAX,
        create_ok(m, path),
    ensures
        create_spec(m, next, path, kind, t)[next] == blank_inode(
            next,
            split_path_spec(path).1,
            kind,
            Some(resolve_spec(m, split_path_spec(path).0)->0), t),
        !create_ok(create_spec(m, next, path, kind, t), path),
        resolve_spec(create_spec(m, next, path, kind, t), path) == Some(next),
        kind == InodeType::File ==> read_spec(create_spec(m, next, path, kind, t), path) == Some(Seq::<char>::empty()),
        kind == InodeType::Directory ==> list_dir_spec(create_spec(m, next, path, kind, t), path) == Seq::<Seq<char>>::empty(),
{
    let (d, f) = split_path_spec(path);
    lemma_split_segments(path);
    let dir = resolve_spec(m, d)->0;
    lemma_walk_result(m, 0, segments(d));
    assert(m.contains_key(dir));
    assert(m.contains_key(0));
    assert(f.len() > 0);
    assert(segments(d).push(f) =~= segments(d) + seq![f]);
    lemma_walk_append(m, 0, segments(d), seq![f]);
    assert(seq![f][0] == f);
    assert(seq![f].drop_first() =~= Seq::<Seq<char>>::empty());
    assert(segments(path) == segments(d) + seq![f]);
    assert(walk(m, 0, segments(path)) is None);
    assert(walk(m, dir, seq![f]) is None);
    if let Some(c) = find_child(m, m[dir].children, f) {
        assert(walk(m, c, seq![f].drop_first()) == Some(c));
    }
    assert(find_child(m, m[dir].children, f) is None);
    let m2 = add_child(m, next, f, kind, dir, t);
    lemma_walk_add(m, next, f, kind, dir, 0, segments(d), t);
    lemma_walk_append(m2, 0, segments(d), seq![f]);
    let ch = m[dir].children;
    assert(m2[dir].children == ch.push(next));
    assert forall|i: int| 0 <= i < ch.len() implies (m.contains_key(#[trigger] ch[i]) <==> m2.contains_key(ch[i])) by {
        assert(ch.contains(ch[i]));
    }
    assert forall|i: int| 0 <= i < ch.len() && m.contains_key(#[trigger] ch[i]) implies m[ch[i]].name == m2[ch[i]].name by {
        assert(ch.contains(ch[i]));
    }
    lemma_find_child_same(m, m2, ch, f);
    lemma_find_child_push(m2, ch, next, f);
    assert(walk(m2, next, Seq::<Seq<char>>::empty()) == Some(next));
    lemma_empty_valid_utf8();
    vstd::utf8::encode_utf8_decode_utf8(Seq::<char>::empty());
    assert(vstd::utf8::encode_utf8(Seq::<char>::empty()) =~= Seq::<u8>::empty());
    assert(child_entries(m2, Seq::<u32>::empty()) =~= Seq::<Seq<char>>::empty());
}

impl FileSystem {
    /// The inodes as a map from id to their abstract value.
    pub open spec fn view(&self) -> Map<u32, InodeView> {
        self.inodes@.map_values(|n: Inode| n@)
    }

    /// Looks `name` up among the children of `dir`: the first existing child with that name.
    fn find_child_exec(&self, dir: &Inode, name: &[char]) -> (r: Option<u32>)
        ensures
            r == find_child(self@, dir.children@, name@),
    {
        let mut i: usize = 0;
        proof {
            assert(dir.children@.skip(0) =~= dir.children@);
        }
        while i < dir.children.len()
            invariant
                i <= dir.children@.len(),
                find_child(self@, dir.children@, name@) == find_child(self@, dir.children@.skip(i as int), name@),
            decreases dir.children@.len() - i,
        {
            let cid = dir.children[i];
            proof {
                assert(dir.children@.skip(i as int)[0] == cid);
                assert(dir.children@.skip(i as int).drop_first() =~= dir.children@.skip(i + 1));
            }
            if let Some(child) = self.inodes.get(&cid) {
                let cname = chars_of(child.name.as_str());
                if chars_eq(cname.as_slice(), name) {
                    return Some(cid);
                }
            }
            i = i + 1;
        }
        proof {
            assert(dir.children@.skip(i as int).len() == 0);
        }
        None
    }

    /// Whether inode `id` exists and is a directory.
    fn is_dir(&self, id: u32) -> (b: bool)
        ensures
            b == is_dir_spec(self@, id),
    {
        match self.inodes.get(&id) {
            Some(inode) => inode.inode_type == InodeType::Directory,
            None => false,
        }
    }

    /// Resolves a path given as characters.
    fn resolve_chars(&self, path: &[char]) -> (r: Option<u32>)
        ensures
            r == resolve_spec(self@, path@),
    {
        let parts = path_segments(path);
        let mut current: u32 = 0;
        let mut i: usize = 0;
        proof {
            assert(segments(path@).skip(0) =~= segments(path@));
        }
        while i < parts.len()
            invariant
                i <= parts@.len(),
                seqs_of(parts@) == segments(path@),
                walk(self@, 0, segments(path@)) == walk(self@, current, segments(path@).skip(i as int)),
            decreases parts@.len() - i,
        {
            let ghost rest = segments(path@).skip(i as int);
            proof {
                assert(rest[0] == parts@[i as int]@);
                assert(rest.drop_first() =~= segments(path@).skip(i + 1));
            }
            match self.inodes.get(&current) {
                None => {
                    return None;
                },
                Some(inode) => {
                    match self.find_child_exec(inode, parts[i].as_slice()) {
                        Some(c) => {
                            current = c;
                        },
                        None => {
                            return None;
                        },
                    }
                },
            }
            i = i + 1;
        }
        proof {
            assert(segments(path@).skip(i as int).len() == 0);
        }
        Some(current)
    }

    /// The inode a path names: `""`, `"/"` and other paths without components name the root
    /// (inode 0); otherwise each component is looked up, in order, among the children of the
    /// directory reached so far, taking the first child with that name.
    pub fn resolve_path(&self, path: &str) -> (r: Option<u32>)
        ensures
            r == resolve_spec(self@, path@),
    {
        let p = chars_of(path);
        self.resolve_chars(p.as_slice())
    }

    /// The entries of the directory a path names, directories marked with a trailing `/`;
    /// empty when the path names no directory.
    pub fn list_dir(&self, path: &str) -> (r: Vec<String>)
        ensures
            crate::text::texts_of(r@) == list_dir_spec(self@, path@),
    {
        let mut out: Vec<String> = Vec::new();
        if let Some(id) = self.resolve_path(path) {
            if let Some(inode) = self.inodes.get(&id) {
                if inode.inode_type == InodeType::Directory {
                    let mut i: usize = 0;
                    while i < inode.children.len()
                        invariant
                            i <= inode.children@.len(),
                            self@.contains_key(id),
                            inode@ == self@[id],
                            crate::text::texts_of(out@) == child_entries(self@, inode.children@.take(i as int)),
                        decreases inode.children@.len() - i,
                    {
                        let cid = inode.children[i];
                        proof {
                            assert(inode.children@.take(i + 1).drop_last() =~= inode.children@.take(i as int));
                        }
                        if let Some(c) = self.inodes.get(&cid) {
                            let mut name = chars_of(c.name.as_str());
                            if c.inode_type == InodeType::Directory {
                                crate::text::push_str(&mut name, "/");
                            }
                            let ghost prev = out@;
                            out.push(string_of(name.as_slice()));
                            proof {
                                assert(crate::text::texts_of(out@) =~= crate::text::texts_of(prev).push(display_name(self@[cid])));
                            }
                        }
                        i = i + 1;
                    }
                    proof {
                        assert(inode.children@.take(inode.children@.len() as int) =~= inode.children@);
                    }
                    return out;
                }
            }
        }
        proof {
            assert(crate::text::texts_of(out@) =~= Seq::<Seq<char>>::empty());
        }
        out
    }

    /// The text of the file a path names, or `None` when it names no file.
    pub fn read_file(&self, path: &str) -> (r: Option<String>)
        ensures
            match r {
                Some(s) => read_spec(self@, path@) == Some(s@),
                None => read_spec(self@, path@) is None,
            },
    {
        let id = self.resolve_path(path)?;
        let inode = self.inodes.get(&id)?;
        if inode.inode_type == InodeType::File {
            Some(text_from_bytes(inode.content.as_slice()))
        } else {
            None
        }
    }

    /// Replaces the content of the file a path names with the UTF-8 bytes of `content`.
    /// Returns whether the path names a file; nothing changes when it does not.
    pub fn write_file(&mut self, path: &str, content: &str) -> (ok: bool)
        ensures
            ok == write_ok(old(self)@, path@),
            final(self)@ == write_spec(old(self)@, path@, content@),
            final(self).next_inode == old(self).next_inode,
            old(self).wf() ==> final(self).wf(),
    {
        if let Some(id) = self.resolve_path(path) {
            if let Some(mut inode) = self.inodes.remove(&id) {
                if inode.inode_type == InodeType::File {
                    inode.content = vstd::slice::slice_to_vec(content.as_bytes());
                    inode.size = content.len();
                    self.inodes.insert(id, inode);
                    proof {
                        assert(self@ =~= write_spec(old(self)@, path@, content@));
                        if old(self).wf() {
                            lemma_write_wf(old(self)@, old(self).next_inode, path@, content@);
                        }
                    }
                    return true;
                }
                self.inodes.insert(id, inode);
                proof {
                    assert(self@ =~= old(self)@);
                }
            } else {
                proof {
                    assert(self@ =~= old(self)@);
                }
            }
        }
        false
    }

    /// Well-formedness of the tree; see `fs_wf`.
    pub open spec fn wf(&self) -> bool {
        fs_wf(self@, self.next_inode)
    }

    /// Adds a childless inode with the next id and returns that id.
    fn alloc_inode(&mut self, name: &[char], inode_type: InodeType, parent: Option<u32>, created_at: u64) -> (id: u32)
        requires
            old(self).next_inode < u32::MAX,
        ensures
            id == old(self).next_inode,
            final(self).next_inode == id + 1,
            final(self)@ == old(self)@.insert(id, blank_inode(id, name@, inode_type, parent, created_at)),
    {
        let id = self.next_inode;
        self.next_inode = self.next_inode + 1;
        let n = Inode {
            id,
            name: string_of(name),
            inode_type,
            content: Vec::new(),
            children: Vec::new(),
            parent,
            size: 0,
            created_at,
        };
        self.inodes.insert(id, n);
        proof {
            assert(n@ =~= blank_inode(id, name@, inode_type, parent, created_at));
            assert(self@ =~= old(self)@.insert(id, blank_inode(id, name@, inode_type, parent, created_at)));
        }
        id
    }

    /// Adds a child inode of kind `kind` under `parent_id` and returns its id.
    fn add_under(&mut self, parent_id: u32, name: &[char], kind: InodeType, created_at: u64) -> (id: u32)
        requires
            old(self).next_inode < u32::MAX,
        ensures
            id == old(self).next_inode,
            final(self).next_inode == id + 1,
            final(self)@ == add_child(old(self)@, id, name@, kind, parent_id, created_at),
    {
        let id = self.alloc_inode(name, kind, Some(parent_id), created_at);
        let ghost m1 = self@;
        if let Some(mut parent) = self.inodes.remove(&parent_id) {
            parent.children.push(id);
            self.inodes.insert(parent_id, parent);
            proof {
                assert(self@ =~= m1.insert(parent_id, InodeView { children: m1[parent_id].children.push(id), ..m1[parent_id] }));
            }
        } else {
            proof {
                assert(self@ =~= m1);
            }
        }
        id
    }

    /// Adds a directory `name` under `parent_id` and returns its id.
    fn mkdir_under(&mut self, parent_id: u32, name: &[char], created_at: u64) -> (id: u32)
        requires
            old(self).next_inode < u32::MAX,
        ensures
            id == old(self).next_inode,
            final(self).next_inode == id + 1,
            final(self)@ == add_child(old(self)@, id, name@, InodeType::Directory, parent_id, created_at),
    {
        self.add_under(parent_id, name, InodeType::Directory, created_at)
    }

    /// Adds an empty file `name` under `parent_id` and returns its id.
    fn create_file_under(&mut self, parent_id: u32, name: &[char], created_at: u64) -> (id: u32)
        requires
            old(self).next_inode < u32::MAX,
        ensures
            id == old(self).next_inode,
            final(self).next_inode == id + 1,
            final(self)@ == add_child(old(self)@, id, name@, InodeType::File, parent_id, created_at),
    {
        self.add_under(parent_id, name, InodeType::File, created_at)
    }

    /// The drawing of the whole tree, from the root.
    pub fn get_tree(&self) -> (r: String)
        requires
            self.wf(),
        ensures
            r@ == tree_node(self@, 0, Seq::empty(), true),
    {
        let mut result: Vec<char> = Vec::new();
        let indent: Vec<char> = Vec::new();
        self.build_tree(0, &indent, true, &mut result);
        string_of(result.as_slice())
    }

    /// Appends the drawing of inode `id` and its subtree to `result`.
    fn build_tree(&self, id: u32, indent: &Vec<char>, last: bool, result: &mut Vec<char>)
        requires
            self.wf(),
        ensures
            final(result)@ == old(result)@ + tree_node(self@, id, indent@, last),
        decreases u32::MAX - id,
    {
        if let Some(inode) = self.inodes.get(&id) {
            if id != 0 {
                push_all(result, indent.as_slice());
                if last {
                    crate::text::push_str(result, "└── ");
                } else {
                    crate::text::push_str(result, "├── ");
                }
            }
            let name = chars_of(inode.name.as_str());
            push_all(result, name.as_slice());
            if id != 0 && inode.inode_type == InodeType::Directory {
                crate::text::push_str(result, "/");
            }
            result.push('\n');
            let ghost head = (if id == 0 { inode@.name } else { indent@ + branch(last) + display_name(inode@) }) + "\n"@;
            proof {
                reveal_strlit("\n");
                assert(result@ =~= old(result)@ + head);
            }
            if inode.inode_type == InodeType::Directory {
                let mut below: Vec<char> = Vec::new();
                if id != 0 {
                    push_all(&mut below, indent.as_slice());
                    if last {
                        crate::text::push_str(&mut below, "    ");
                    } else {
                        crate::text::push_str(&mut below, "│   ");
                    }
                }
                proof {
                    if id == 0 {
                        assert(below@ =~= Seq::<char>::empty());
                    }
                }
                let n = inode.children.len();
                let mut i: usize = 0;
                while i < n
                    invariant
                        self.wf(),
                        n == inode.children@.len(),
                        i <= n,
                        self@.contains_key(id),
                        inode@ == self@[id],
                        below@ == (if id == 0 { Seq::empty() } else { indent@ + continuation(last) }),
                        result@ == old(result)@ + head + tree_children(self@, id, below@, inode.children@, i as nat),
                    decreases n - i,
                {
                    let child_id = inode.children[i];
                    proof {
                        assert(inode.children@[i as int] == child_id);
                        assert(self@[id].children.contains(child_id));
                        assert(id < child_id);
                    }
                    self.build_tree(child_id, &below, i + 1 == n, result);
                    proof {
                        assert(result@ =~= old(result)@ + head + tree_children(self@, id, below@, inode.children@, (i + 1) as nat));
                    }
                    i = i + 1;
                }
            }
        } else {
            proof {
                assert(result@ =~= old(result)@ + tree_node(self@, id, indent@, last));
            }
        }
    }

    /// Creates a file holding `content` at a path whose directory resolves (whether or not
    /// the path exists already); does nothing when the directory does not resolve.
    fn create_file_with_content(&mut self, path: &str, content: &str)
        requires
            old(self).next_inode < u32::MAX,
        ensures
            final(self)@ == create_with_text_spec(old(self)@, old(self).next_inode, path@, content@),
            final(self).next_inode == if resolve_spec(old(self)@, split_path_spec(path@).0) is Some {
                old(self).next_inode + 1
            } else {
                old(self).next_inode as int
            },
    {
        let p = chars_of(path);
        let (dir, filename) = split_path(p.as_slice());
        if let Some(dir_id) = self.resolve_chars(dir.as_slice()) {
            let file_id = self.create_file_under(dir_id, filename.as_slice(), 0);
            let ghost m1 = self@;
            assert(m1.contains_key(file_id));
            if let Some(mut inode) = self.inodes.remove(&file_id) {
                inode.content = vstd::slice::slice_to_vec(content.as_bytes());
                inode.size = content.len();
                self.inodes.insert(file_id, inode);
                proof {
                    let bytes = vstd::utf8::encode_utf8(content@);
                    assert(self@ =~= m1.insert(file_id, InodeView { content: bytes, size: bytes.len() as usize, ..m1[file_id] }));
                }
            }
        }
    }

    /// The boot tree: `/` with the directories `kernel`, `home`, `tmp` and `dev`, and in
    /// `/home` the files `readme.txt`, `hello.txt` and `demo.sh`.
    pub fn new() -> (fs: Self)
        ensures
            fs@ == boot_tree(),
            fs.next_inode == 8,
            fs.wf(),
    {
        let mut fs = FileSystem { inodes: HashMap::new(), next_inode: 0 };
        proof {
            assert(fs@ =~= Map::<u32, InodeView>::empty());
        }
        let root = chars_of("/");
        let root_id = fs.alloc_inode(root.as_slice(), InodeType::Directory, None, 0);
        let kernel_name = chars_of("kernel");
        let home_name = chars_of("home");
        let tmp_name = chars_of("tmp");
        let dev_name = chars_of("dev");
        fs.mkdir_under(root_id, kernel_name.as_slice(), 0);
        fs.mkdir_under(root_id, home_name.as_slice(), 0);
        fs.mkdir_under(root_id, tmp_name.as_slice(), 0);
        fs.mkdir_under(root_id, dev_name.as_slice(), 0);
        let ghost m4 = fs@;
        proof {
            assert(m4 =~~= map![
                0u32 => boot_dir(0, "/"@, seq![1u32, 2, 3, 4], None),
                1u32 => boot_dir(1, "kernel"@, Seq::empty(), Some(0)),
                2u32 => boot_dir(2, "home"@, Seq::empty(), Some(0)),
                3u32 => boot_dir(3, "tmp"@, Seq::empty(), Some(0)),
                4u32 => boot_dir(4, "dev"@, Seq::empty(), Some(0)),
            ]);
            reveal_strlit("kernel");
            reveal_strlit("home");
            reveal_strlit("tmp");
            reveal_strlit("dev");
            reveal_strlit("/home");
            lemma_home_resolves(m4);
        }
        fs.create_file_with_content("/home/readme.txt", README_TEXT);
        let ghost m5 = fs@;
        proof {
            reveal_strlit("/home/readme.txt");
            reveal_strlit("readme.txt");
            assert("/home/readme.txt"@ =~= "/home/"@ + "readme.txt"@) by {
                reveal_strlit("/home/");
            }
            lemma_boot_split("/home/readme.txt", "readme.txt");
            assert(m5 =~~= m4.insert(5, boot_file(5, "readme.txt"@, README_TEXT@)).insert(2, boot_dir(2, "home"@, seq![5u32], Some(0))));
            lemma_home_resolves(m5);
        }
        fs.create_file_with_content("/home/hello.txt", HELLO_TEXT);
        let ghost m6 = fs@;
        proof {
            reveal_strlit("/home/hello.txt");
            reveal_strlit("hello.txt");
            assert("/home/hello.txt"@ =~= "/home/"@ + "hello.txt"@) by {
                reveal_strlit("/home/");
            }
            lemma_boot_split("/home/hello.txt", "hello.txt");
            assert(m6 =~~= m5.insert(6, boot_file(6, "hello.txt"@, HELLO_TEXT@)).insert(2, boot_dir(2, "home"@, seq![5u32, 6], Some(0))));
            lemma_home_resolves(m6);
        }
        fs.create_file_with_content("/home/demo.sh", DEMO_TEXT);
        proof {
            reveal_strlit("/home/demo.sh");
            reveal_strlit("demo.sh");
            assert("/home/demo.sh"@ =~= "/home/"@ + "demo.sh"@) by {
                reveal_strlit("/home/");
            }
            lemma_boot_split("/home/demo.sh", "demo.sh");
            assert(fs@ =~~= boot_tree());
            lemma_boot_wf();
        }
        fs
    }

    /// Whether creating `path` would succeed: its directory part names a directory and the
    /// path itself does not resolve.
    pub fn can_create(&self, path: &str) -> (b: bool)
        ensures
            b == create_ok(self@, path@),
    {
        let p = chars_of(path);
        let (dir, _) = split_path(p.as_slice());
        match self.resolve_chars(dir.as_slice()) {
            Some(d) => self.is_dir(d) && self.resolve_chars(p.as_slice()).is_none(),
            None => false,
        }
    }

    /// Creates an empty file at a path whose directory part names a directory and which does not exist yet;
    /// its creation time is left at 0 (see `create_file_at`). Returns whether it was
    /// created; nothing changes when it was not.
    pub fn create_file(&mut self, path: &str) -> (ok: bool)
        requires
            create_ok(old(self)@, path@) ==> old(self).next_inode < u32::MAX,
        ensures
            ok == create_ok(old(self)@, path@),
            final(self)@ == create_spec(old(self)@, old(self).next_inode, path@, InodeType::File, 0),
            final(self).next_inode == if ok { old(self).next_inode + 1 } else { old(self).next_inode as int },
            old(self).wf() ==> final(self).wf(),
    {
        self.create_file_at(path, 0)
    }

    /// Creates an empty file at a path whose directory part names a directory and which does not exist yet,
    /// created at tick `created_at`. Returns whether it was created; nothing changes when it
    /// was not.
    pub fn create_file_at(&mut self, path: &str, created_at: u64) -> (ok: bool)
        requires
            create_ok(old(self)@, path@) ==> old(self).next_inode < u32::MAX,
        ensures
            ok == create_ok(old(self)@, path@),
            final(self)@ == create_spec(old(self)@, old(self).next_inode, path@, InodeType::File, created_at),
            final(self).next_inode == if ok { old(self).next_inode + 1 } else { old(self).next_inode as int },
            old(self).wf() ==> final(self).wf(),
    {
        let p = chars_of(path);
        let (dir, file) = split_path(p.as_slice());
        if let Some(dir_id) = self.resolve_chars(dir.as_slice()) {
            if !self.is_dir(dir_id) || self.resolve_chars(p.as_slice()).is_some() {
                return false;
            }
            proof {
                if old(self).wf() {
                    lemma_walk_result(old(self)@, 0, segments(dir@));
                    lemma_add_child_wf(old(self)@, old(self).next_inode, file@, InodeType::File, dir_id, created_at);
                }
            }
            self.create_file_under(dir_id, file.as_slice(), created_at);
            true
        } else {
            false
        }
    }

    /// Creates an empty directory at a path whose directory part names a directory and which does not exist yet;
    /// its creation time is left at 0 (see `create_dir_at`). Returns whether it was created;
    /// nothing changes when it was not.
    pub fn create_dir(&mut self, path: &str) -> (ok: bool)
        requires
            create_ok(old(self)@, path@) ==> old(self).next_inode < u32::MAX,
        ensures
            ok == create_ok(old(self)@, path@),
            final(self)@ == create_spec(old(self)@, old(self).next_inode, path@, InodeType::Directory, 0),
            final(self).next_inode == if ok { old(self).next_inode + 1 } else { old(self).next_inode as int },
            old(self).wf() ==> final(self).wf(),
    {
        self.create_dir_at(path, 0)
    }

    /// Creates an empty directory at a path whose directory part names a directory and which does not exist yet,
    /// created at tick `created_at`. Returns whether it was created; nothing changes when it
    /// was not.
    pub fn create_dir_at(&mut self, path: &str, created_at: u64) -> (ok: bool)
        requires
            create_ok(old(self)@, path@) ==> old(self).next_inode < u32::MAX,
        ensures
            ok == create_ok(old(self)@, path@),
            final(self)@ == create_spec(old(self)@, old(self).next_inode, path@, InodeType::Directory, created_at),
            final(self).next_inode == if ok { old(self).next_inode + 1 } else { old(self).next_inode as int },
            old(self).wf() ==> final(self).wf(),
    {
        let p = chars_of(path);
        let (dir, name) = split_path(p.as_slice());
        if let Some(parent_id) = self.resolve_chars(dir.as_slice()) {
            if !self.is_dir(parent_id) || self.resolve_chars(p.as_slice()).is_some() {
                return false;
            }
            proof {
                if old(self).wf() {
                    lemma_walk_result(old(self)@, 0, segments(dir@));
                    lemma_add_child_wf(old(self)@, old(self).next_inode, name@, InodeType::Directory, parent_id, created_at);
                }
            }
            self.mkdir_under(parent_id, name.as_slice(), created_at);
            true
        } else {
            false
        }
    }

    /// Deletes the inode a path names (not `"/"`): it is removed from its parent's children
    /// and from the table; its own children stay in the table. Returns whether it existed.
    pub fn delete(&mut self, path: &str) -> (ok: bool)
        ensures
            ok == delete_ok(old(self)@, path@),
            final(self)@ == delete_spec(old(self)@, path@),
            final(self).next_inode == old(self).next_inode,
            old(self).wf() ==> final(self).wf(),
    {
        let p = chars_of(path);
        let root = chars_of("/");
        if chars_eq(p.as_slice(), root.as_slice()) {
            return false;
        }
        if let Some(id) = self.resolve_chars(p.as_slice()) {
            let parent_id = match self.inodes.get(&id) {
                Some(n) => n.parent,
                None => None,
            };
            let ghost m0 = self@;
            if let Some(pid) = parent_id {
                if let Some(mut parent) = self.inodes.remove(&pid) {
                    parent.children = crate::kernel::scheduler::vec_without(&parent.children, id);
                    self.inodes.insert(pid, parent);
                    proof {
                        assert(self@ =~= m0.insert(pid, InodeView { children: without(m0[pid].children, id), ..m0[pid] }));
                    }
                }
            }
            let ghost m1 = self@;
            self.inodes.remove(&id);
            proof {
                assert(self@ =~= m1.remove(id));
                assert(self@ =~= delete_spec(old(self)@, path@));
                if old(self).wf() {
                    lemma_delete_wf(old(self)@, old(self).next_inode, path@);
                }
            }
            true
        } else {
            false
        }
    }
}

/// The non-empty `/`-separated components of a path.
fn path_segments(p: &[char]) -> (r: Vec<Vec<char>>)
    ensures
        seqs_of(r@) == segments(p@),
{
    let mut done: Vec<Vec<char>> = Vec::new();
    let mut cur: Vec<char> = Vec::new();
    let mut i: usize = 0;
    while i < p.len()
        invariant
            i <= p@.len(),
            (seqs_of(done@), cur@) == seg_state(p@.take(i as int)),
        decreases p@.len() - i,
    {
        proof {
            assert(p@.take(i + 1).drop_last() =~= p@.take(i as int));
        }
        let c = p[i];
        if c == '/' {
            if cur.len() > 0 {
                let ghost prev = done@;
                let finished = cur;
                cur = Vec::new();
                done.push(finished);
                proof {
                    assert(seqs_of(done@) =~= seqs_of(prev).push(finished@));
                }
            }
        } else {
            cur.push(c);
        }
        i = i + 1;
    }
    proof {
        assert(p@.take(p@.len() as int) =~= p@);
    }
    if cur.len() > 0 {
        let ghost prev = done@;
        done.push(cur);
        proof {
            assert(seqs_of(done@) =~= seqs_of(prev).push(cur@));
        }
    }
    done
}

/// Splits a path into its directory and last component: trailing slashes are dropped, then
/// the text after the last `/` is the component and the text before it the directory (`"/"`
/// when that is empty or when there is no `/`).
fn split_path(p: &[char]) -> (r: (Vec<char>, Vec<char>))
    ensures
        r.0@ == split_path_spec(p@).0,
        r.1@ == split_path_spec(p@).1,
{
    let mut end: usize = p.len();
    proof {
        assert(p@.take(p@.len() as int) =~= p@);
    }
    while end > 0 && p[end - 1] == '/'
        invariant
            end <= p@.len(),
            trim_end_slashes(p@) == trim_end_slashes(p@.take(end as int)),
        decreases end,
    {
        proof {
            assert(p@.take(end as int).drop_last() =~= p@.take(end - 1));
        }
        end = end - 1;
    }
    let ghost t = p@.take(end as int);
    proof {
        assert(trim_end_slashes(p@) == t);
    }
    let mut pos: usize = end;
    let mut found = false;
    proof {
        assert(t.take(end as int) =~= t);
    }
    while pos > 0 && !found
        invariant
            pos <= end,
            end <= p@.len(),
            t == p@.take(end as int),
            found ==> pos < end && p@[pos as int] == '/' && last_slash(t) == pos,
            !found ==> last_slash(t) == last_slash(t.take(pos as int)),
        decreases pos + (if found { 0int } else { 1int }),
    {
        proof {
            assert(t.take(pos as int).drop_last() =~= t.take(pos - 1));
        }
        if p[pos - 1] == '/' {
            found = true;
            pos = pos - 1;
        } else {
            pos = pos - 1;
        }
    }
    let mut dir: Vec<char> = Vec::new();
    let mut file: Vec<char> = Vec::new();
    if found {
        if pos == 0 {
            dir.push('/');
            proof {
                reveal_strlit("/");
                assert(dir@ =~= "/"@);
            }
        } else {
            let mut i: usize = 0;
            while i < pos
                invariant
                    i <= pos,
                    pos <= p@.len(),
                    dir@ == p@.take(i as int),
                decreases pos - i,
            {
                dir.push(p[i]);
                proof {
                    assert(p@.take(i + 1) =~= p@.take(i as int).push(p@[i as int]));
                }
                i = i + 1;
            }
            proof {
                assert(dir@ =~= t.take(pos as int));
            }
        }
        let mut j: usize = pos + 1;
        while j < end
            invariant
                pos + 1 <= j <= end,
                end <= p@.len(),
                file@ == p@.subrange(pos + 1, j as int),
            decreases end - j,
        {
            file.push(p[j]);
            proof {
                assert(p@.subrange(pos + 1, j + 1) =~= p@.subrange(pos + 1, j as int).push(p@[j as int]));
            }
            j = j + 1;
        }
        proof {
            assert(file@ =~= t.skip(pos + 1));
        }
    } else {
        proof {
            assert(t.take(0) =~= Seq::<char>::empty());
            assert(last_slash(t) == -1);
        }
        dir.push('/');
        proof {
            reveal_strlit("/");
            assert(dir@ =~= "/"@);
        }
        let mut j: usize = 0;
        while j < end
            invariant
                j <= end,
                end <= p@.len(),
                file@ == p@.take(j as int),
            decreases end - j,
        {
            file.push(p[j]);
            proof {
                assert(p@.take(j + 1) =~= p@.take(j as int).push(p@[j as int]));
            }
            j = j + 1;
        }
    }
    (dir, file)
}

} // verus!
