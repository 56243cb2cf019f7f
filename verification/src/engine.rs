use vstd::prelude::*;
use crate::byteops::{bytes_eq, copy_bytes, seqs_of};
use crate::cipher::{NoteFile, NoteFileView, views_of, txt_suffix};
use crate::hashing::{sha256_hex_of, get_hash};
use crate::index::{ContentIndex, NEWLINE, render_spec, parse_spec, line_free};

verus! {

/// The ASCII bytes of `"contents"`, the reserved title of the index record.
pub open spec fn contents_title() -> Seq<u8> {
    seq![99u8, 111u8, 110u8, 116u8, 101u8, 110u8, 116u8, 115u8]
}

/// The ASCII bytes of `"main"`, the reserved title of the default landing
/// note.
pub open spec fn main_title() -> Seq<u8> {
    seq![109u8, 97u8, 105u8, 110u8]
}

/// Reserved entries are exempt from ordinary create and delete.
pub open spec fn is_reserved_title(t: Seq<u8>) -> bool {
    t == contents_title() || t == main_title()
}

/// The storage key of a title: its hex digest. Every read, write and delete
/// goes through this resolution, never through the raw title, so the
/// directory listing leaks no titles at rest.
pub open spec fn resolve_spec(title: Seq<u8>) -> Seq<u8> {
    sha256_hex_of(title)
}

/// The on-disk file name of a note: its storage key with `.txt` appended.
pub open spec fn note_name_spec(title: Seq<u8>) -> Seq<u8> {
    resolve_spec(title) + txt_suffix()
}

/// The on-disk file name of the index record itself.
pub open spec fn index_record_name() -> Seq<u8> {
    note_name_spec(contents_title())
}

/// The ASCII bytes of `"Title: "`.
pub open spec fn header_prefix() -> Seq<u8> {
    seq![84u8, 105u8, 116u8, 108u8, 101u8, 58u8, 32u8]
}

/// A fresh note's contents: its title header line.
pub open spec fn header_spec(title: Seq<u8>) -> Seq<u8> {
    header_prefix() + title + seq![NEWLINE]
}

/// The names of a file set, in order.
pub open spec fn names_of(files: Seq<NoteFileView>) -> Seq<Seq<u8>> {
    files.map_values(|f: NoteFileView| f.name)
}

/// A file set with the first file of the given name removed; without such a
/// file, the set unchanged.
pub open spec fn remove_first_named(files: Seq<NoteFileView>, name: Seq<u8>) -> Seq<NoteFileView> {
    match names_of(files).index_of_first(name) {
        Some(i) => files.remove(i),
        None => files,
    }
}

/// A file with one line appended to its contents.
pub open spec fn append_to_file(f: NoteFileView, line: Seq<u8>) -> NoteFileView {
    NoteFileView { name: f.name, data: f.data + line + seq![NEWLINE] }
}

/// True iff some file of the set bears this name.
pub open spec fn has_named(files: Seq<NoteFileView>, name: Seq<u8>) -> bool {
    exists|i: int| 0 <= i < files.len() && (#[trigger] files[i]).name == name
}

/// The index/file consistency invariant over bare parts: no title is listed
/// twice, every listed title has its note file, distinct listed titles keep
/// distinct storage keys, and no note file usurps the index record's name.
pub open spec fn wf_parts(titles: Seq<Seq<u8>>, files: Seq<NoteFileView>) -> bool {
    &&& titles.no_duplicates()
    &&& forall|i: int|
        0 <= i < titles.len() ==> has_named(files, note_name_spec(#[trigger] titles[i]))
    &&& forall|i: int, j: int|
        0 <= i < j < titles.len() ==> note_name_spec(#[trigger] titles[i]) != note_name_spec(
            #[trigger] titles[j],
        )
    &&& forall|i: int|
        0 <= i < files.len() ==> (#[trigger] files[i]).name != index_record_name()
}

/// Resolution is pure: the storage key of a title is a function of the
/// title alone, so repeated resolutions of equal titles always agree.
pub proof fn lemma_resolve_stable(t1: Seq<u8>, t2: Seq<u8>)
    requires
        t1 == t2,
    ensures
        resolve_spec(t1) == resolve_spec(t2),
{
}

fn contents_title_bytes() -> (r: Vec<u8>)
    ensures
        r@ == contents_title(),
{
    let mut r: Vec<u8> = Vec::new();
    r.push(99);
    r.push(111);
    r.push(110);
    r.push(116);
    r.push(101);
    r.push(110);
    r.push(116);
    r.push(115);
    proof {
        assert(r@ =~= contents_title());
    }
    r
}

fn main_title_bytes() -> (r: Vec<u8>)
    ensures
        r@ == main_title(),
{
    let mut r: Vec<u8> = Vec::new();
    r.push(109);
    r.push(97);
    r.push(105);
    r.push(110);
    proof {
        assert(r@ =~= main_title());
    }
    r
}

/// The storage key of a title.
pub fn resolve(title: &[u8]) -> (r: Vec<u8>)
    ensures
        r@ == resolve_spec(title@),
{
    get_hash(title)
}

/// The on-disk file name of a note with this title.
pub fn note_name(title: &[u8]) -> (r: Vec<u8>)
    ensures
        r@ == note_name_spec(title@),
{
    let mut r = get_hash(title);
    r.push(46);
    r.push(116);
    r.push(120);
    r.push(116);
    proof {
        assert(r@ =~= note_name_spec(title@));
    }
    r
}

/// True iff the title is one of the reserved entries.
pub fn is_reserved(title: &[u8]) -> (r: bool)
    ensures
        r == is_reserved_title(title@),
{
    let c = contents_title_bytes();
    let m = main_title_bytes();
    bytes_eq(title, c.as_slice()) || bytes_eq(title, m.as_slice())
}

/// A fresh note's contents: the title header convention.
pub fn title_header(title: &[u8]) -> (r: Vec<u8>)
    ensures
        r@ == header_spec(title@),
{
    let mut r: Vec<u8> = Vec::new();
    r.push(84);
    r.push(105);
    r.push(116);
    r.push(108);
    r.push(101);
    r.push(58);
    r.push(32);
    let mut i: usize = 0;
    while i < title.len()
        invariant
            0 <= i <= title@.len(),
            r@ == header_prefix() + title@.subrange(0, i as int),
        decreases title@.len() - i,
    {
        r.push(title[i]);
        proof {
            assert(r@ =~= header_prefix() + title@.subrange(0, i as int + 1));
        }
        i += 1;
    }
    r.push(NEWLINE);
    proof {
        assert(title@.subrange(0, title@.len() as int) =~= title@);
        assert(r@ =~= header_spec(title@));
    }
    r
}

/// What a `create` did.
pub enum CreateOutcome {
    Created,
    AlreadyExists,
    Reserved,
}

/// What a `delete_by_title` did.
pub enum DeleteOutcome {
    Deleted,
    NotFound,
    Reserved,
}

/// What an `append_line` did.
pub enum AppendOutcome {
    Appended,
    NotFound,
    Reserved,
}

/// The content-addressed store: the ordered title index, and the note files
/// of the working directory, each named by the storage key of its title.
/// The index record itself is kept apart and only joined to the file set by
/// `export`.
pub struct StorageEngine {
    pub index: ContentIndex,
    pub files: Vec<NoteFile>,
}

impl StorageEngine {
    /// The titles, in insertion order.
    pub open spec fn titles(self) -> Seq<Seq<u8>> {
        self.index@
    }

    /// True iff some file of the working directory bears this name.
    pub open spec fn has_file(self, name: Seq<u8>) -> bool {
        has_named(views_of(self.files@), name)
    }

    /// The index/file consistency invariant.
    pub open spec fn wf(self) -> bool {
        wf_parts(self.titles(), views_of(self.files@))
    }

    /// An empty store: no titles, no files.
    pub fn new() -> (r: Self)
        ensures
            r.wf(),
            r.titles() == Seq::<Seq<u8>>::empty(),
            r.files@.len() == 0,
    {
        StorageEngine { index: ContentIndex::empty(), files: Vec::new() }
    }

    /// The index of the first file bearing this name.
    fn find_file(&self, name: &[u8]) -> (r: Option<usize>)
        ensures
            r matches Some(i) ==> 0 <= i < self.files@.len() && self.files@[i as int]@.name
                == name@ && (forall|j: int| 0 <= j < i ==> self.files@[j]@.name != name@),
            r is Some ==> self.has_file(name@),
            r is None ==> !self.has_file(name@),
    {
        let mut i: usize = 0;
        while i < self.files.len()
            invariant
                0 <= i <= self.files@.len(),
                forall|j: int| 0 <= j < i ==> self.files@[j]@.name != name@,
            decreases self.files@.len() - i,
        {
            if bytes_eq(self.files[i].name.as_slice(), name) {
                proof {
                    assert(views_of(self.files@)[i as int].name == name@);
                }
                return Some(i);
            }
            i += 1;
        }
        proof {
            assert forall|w: int| 0 <= w < views_of(self.files@).len() implies (
            #[trigger] views_of(self.files@)[w]).name != name@ by {
                assert(views_of(self.files@)[w] == self.files@[w]@);
            }
        }
        None
    }

    /// The titles, in insertion order.
    pub fn list_titles(&self) -> (r: &Vec<Vec<u8>>)
        ensures
            seqs_of(r@) == self.titles(),
    {
        self.index.list()
    }

    /// Adds a fresh note for a title whose storage slot is free: its file,
    /// with the title header, and its index entry, in one step.
    fn add_note(&mut self, title: &[u8])
        requires
            old(self).wf(),
            !old(self).has_file(note_name_spec(title@)),
            note_name_spec(title@) != index_record_name(),
        ensures
            final(self).wf(),
            final(self).titles() == old(self).titles().push(title@),
            views_of(final(self).files@) == views_of(old(self).files@).push(
                (NoteFileView { name: note_name_spec(title@), data: header_spec(title@) }),
            ),
    {
        let name = note_name(title);
        let data = title_header(title);
        let ghost old_views = views_of(self.files@);
        let ghost new_view = NoteFileView {
            name: note_name_spec(title@),
            data: header_spec(title@),
        };
        self.files.push(NoteFile { name, data });
        proof {
            assert(views_of(self.files@) =~= old_views.push(new_view));
        }
        self.index.append(copy_bytes(title));
        proof {
            let post = *self;
            let pre = *old(self);
            assert(post.titles() == pre.titles().push(title@));
            // the new title was not yet listed: its file was absent
            assert forall|i: int| 0 <= i < pre.titles().len() implies pre.titles()[i]
                != title@ by {
                if pre.titles()[i] == title@ {
                    assert(pre.has_file(note_name_spec(pre.titles()[i])));
                }
            }
            // every old title keeps its file after the push
            assert forall|i: int| 0 <= i < post.titles().len() implies post.has_file(
                note_name_spec(#[trigger] post.titles()[i]),
            ) by {
                if i < pre.titles().len() {
                    assert(post.titles()[i] == pre.titles()[i]);
                    let w = choose|w: int|
                        0 <= w < views_of(pre.files@).len() && (#[trigger] views_of(
                            pre.files@,
                        )[w]).name == note_name_spec(pre.titles()[i]);
                    assert(views_of(post.files@)[w].name == note_name_spec(post.titles()[i]));
                } else {
                    assert(post.titles()[i] == title@);
                    let w = post.files@.len() - 1;
                    assert(views_of(post.files@)[w].name == note_name_spec(title@));
                }
            }
            // distinct titles keep distinct storage keys
            assert forall|i: int, j: int| 0 <= i < j < post.titles().len() implies note_name_spec(
                #[trigger] post.titles()[i],
            ) != note_name_spec(#[trigger] post.titles()[j]) by {
                if j == post.titles().len() - 1 {
                    assert(post.titles()[j] == title@);
                    assert(post.titles()[i] == pre.titles()[i]);
                    if note_name_spec(pre.titles()[i]) == note_name_spec(title@) {
                        assert(pre.has_file(note_name_spec(pre.titles()[i])));
                        assert(pre.has_file(note_name_spec(title@)));
                    }
                } else {
                    assert(post.titles()[i] == pre.titles()[i]);
                    assert(post.titles()[j] == pre.titles()[j]);
                }
            }
            // no note file usurps the index record's name
            assert forall|i: int| 0 <= i < views_of(post.files@).len() implies (
            #[trigger] views_of(post.files@)[i]).name != index_record_name() by {
                if i < pre.files@.len() {
                    assert(views_of(pre.files@)[i] == pre.files@[i]@);
                    assert(post.files@[i] == pre.files@[i]);
                } else {
                    assert(views_of(post.files@)[i].name == note_name_spec(title@));
                }
            }
        }
    }

    /// Creates a note: a no-op when the title is reserved or the resolved
    /// storage key's file already exists (the index record's own name counts
    /// as taken); otherwise the file is created with its title header, and
    /// the title is appended to the index.
    pub fn create(&mut self, title: &[u8]) -> (r: CreateOutcome)
        requires
            old(self).wf(),
        ensures
            final(self).wf(),
            (r is Reserved) <==> is_reserved_title(title@),
            (r is AlreadyExists) <==> (!is_reserved_title(title@) && (old(self).has_file(
                note_name_spec(title@),
            ) || note_name_spec(title@) == index_record_name())),
            (r is Created) <==> (!is_reserved_title(title@) && !old(self).has_file(
                note_name_spec(title@),
            ) && note_name_spec(title@) != index_record_name()),
            r is Created ==> final(self).titles() == old(self).titles().push(title@),
            r is Created ==> views_of(final(self).files@) == views_of(old(self).files@).push(
                (NoteFileView { name: note_name_spec(title@), data: header_spec(title@) }),
            ),
            !(r is Created) ==> *final(self) == *old(self),
    {
        if is_reserved(title) {
            return CreateOutcome::Reserved;
        }
        let name = note_name(title);
        let contents = contents_title_bytes();
        let record_name = note_name(contents.as_slice());
        if bytes_eq(name.as_slice(), record_name.as_slice()) {
            return CreateOutcome::AlreadyExists;
        }
        match self.find_file(name.as_slice()) {
            Some(_) => CreateOutcome::AlreadyExists,
            None => {
                self.add_note(title);
                CreateOutcome::Created
            },
        }
    }

    /// Creates the default landing note, as a fresh start does: a no-op
    /// when its file already exists or its storage slot is taken by the
    /// index record.
    pub fn ensure_main(&mut self) -> (r: bool)
        requires
            old(self).wf(),
        ensures
            final(self).wf(),
            r <==> (!old(self).has_file(note_name_spec(main_title())) && note_name_spec(
                main_title(),
            ) != index_record_name()),
            r ==> final(self).titles() == old(self).titles().push(main_title()),
            r ==> views_of(final(self).files@) == views_of(old(self).files@).push(
                (NoteFileView { name: note_name_spec(main_title()), data: header_spec(
                    main_title(),
                ) }),
            ),
            !r ==> *final(self) == *old(self),
    {
        let m = main_title_bytes();
        let name = note_name(m.as_slice());
        let contents = contents_title_bytes();
        let record_name = note_name(contents.as_slice());
        if bytes_eq(name.as_slice(), record_name.as_slice()) {
            return false;
        }
        match self.find_file(name.as_slice()) {
            Some(_) => false,
            None => {
                self.add_note(m.as_slice());
                true
            },
        }
    }

    /// The contents of the note resolved from this title, when present.
    pub fn read_note(&self, title: &[u8]) -> (r: Option<&Vec<u8>>)
        ensures
            r is Some <==> self.has_file(note_name_spec(title@)),
            r matches Some(d) ==> ({
                let fv = views_of(self.files@);
                let i = names_of(fv).index_of_first(note_name_spec(title@))->Some_0;
                d@ == fv[i].data
            }),
    {
        let name = note_name(title);
        match self.find_file(name.as_slice()) {
            Some(i) => {
                proof {
                    let fv = views_of(self.files@);
                    names_of(fv).index_of_first_ensures(note_name_spec(title@));
                    assert(names_of(fv)[i as int] == note_name_spec(title@));
                    assert(names_of(fv).contains(note_name_spec(title@)));
                    let k = names_of(fv).index_of_first(note_name_spec(title@))->Some_0;
                    assert(fv[k].name == note_name_spec(title@));
                    assert(k == i as int);
                }
                Some(&self.files[i].data)
            },
            None => None,
        }
    }

    /// Deletes a note by its title: a no-op when the title is reserved or
    /// not listed; otherwise its file is removed, and the title is removed
    /// from the index, in one step.
    pub fn delete_by_title(&mut self, title: &[u8]) -> (r: DeleteOutcome)
        requires
            old(self).wf(),
        ensures
            final(self).wf(),
            (r is Reserved) <==> is_reserved_title(title@),
            (r is NotFound) <==> (!is_reserved_title(title@) && !old(self).titles().contains(
                title@,
            )),
            (r is Deleted) <==> (!is_reserved_title(title@) && old(self).titles().contains(
                title@,
            )),
            !(r is Deleted) ==> *final(self) == *old(self),
            r is Deleted ==> final(self).titles() == old(self).titles().remove(
                old(self).titles().index_of_first(title@)->Some_0,
            ),
            r is Deleted ==> views_of(final(self).files@) == remove_first_named(
                views_of(old(self).files@),
                note_name_spec(title@),
            ),
            r is Deleted ==> !final(self).titles().contains(title@),
    {
        if is_reserved(title) {
            return DeleteOutcome::Reserved;
        }
        if !self.index.contains_title(title) {
            return DeleteOutcome::NotFound;
        }
        let name = note_name(title);
        proof {
            let ti = choose|i: int|
                0 <= i < self.titles().len() && self.titles()[i] == title@;
            assert(self.has_file(note_name_spec(self.titles()[ti])));
        }
        let fopt = self.find_file(name.as_slice());
        proof {
            assert(fopt is Some) by {
                if fopt is None {
                    assert(!self.has_file(note_name_spec(title@)));
                }
            }
        }
        let fi = fopt.unwrap();
        let ghost pre = *self;
        let ghost fvs = views_of(pre.files@);
        let _removed = self.files.remove(fi);
        self.index.remove_title(title);
        proof {
            let post = *self;
            // the removed file is the first of its name
            names_of(fvs).index_of_first_ensures(note_name_spec(title@));
            assert(names_of(fvs)[fi as int] == note_name_spec(title@));
            assert(names_of(fvs).contains(note_name_spec(title@)));
            let k = names_of(fvs).index_of_first(note_name_spec(title@))->Some_0;
            assert(fvs[k].name == note_name_spec(title@));
            assert(k == fi as int);
            assert(views_of(post.files@) =~= remove_first_named(fvs, note_name_spec(title@)));
            // the removed title is the first of its spelling
            pre.titles().index_of_first_ensures(title@);
            let ti = pre.titles().index_of_first(title@)->Some_0;
            assert(pre.titles()[ti] == title@);
            assert(post.titles() == pre.titles().remove(ti));
            let tpost = post.titles();
            assert(tpost.len() == pre.titles().len() - 1);
            // where each remaining title came from
            assert forall|a: int| 0 <= a < tpost.len() implies #[trigger] tpost[a] == (if a < ti {
                pre.titles()[a]
            } else {
                pre.titles()[a + 1]
            }) by {}
            // the deleted title is gone
            assert forall|a: int| 0 <= a < tpost.len() implies #[trigger] tpost[a] != title@ by {
                if a < ti {
                    assert(pre.titles()[a] != pre.titles()[ti]);
                } else {
                    assert(pre.titles()[a + 1] != pre.titles()[ti]);
                }
            }
            // the remaining titles stay pairwise distinct
            assert forall|a: int, b: int| 0 <= a < b < tpost.len() implies #[trigger] tpost[a]
                != #[trigger] tpost[b] by {}
            // distinct remaining titles keep distinct storage keys
            assert forall|a: int, b: int| 0 <= a < b < tpost.len() implies note_name_spec(
                #[trigger] tpost[a],
            ) != note_name_spec(#[trigger] tpost[b]) by {
                let pa: int = if a < ti { a } else { a + 1 };
                let pb: int = if b < ti { b } else { b + 1 };
                assert(tpost[a] == pre.titles()[pa] && tpost[b] == pre.titles()[pb]);
                if pa < pb {
                    assert(note_name_spec(pre.titles()[pa]) != note_name_spec(pre.titles()[pb]));
                } else {
                    assert(note_name_spec(pre.titles()[pb]) != note_name_spec(pre.titles()[pa]));
                }
            }
            // every remaining title keeps its file
            assert forall|a: int| 0 <= a < tpost.len() implies post.has_file(note_name_spec(
                #[trigger] tpost[a],
            )) by {
                let pa: int = if a < ti { a } else { a + 1 };
                assert(tpost[a] == pre.titles()[pa]);
                assert(pre.has_file(note_name_spec(pre.titles()[pa])));
                let w = choose|w: int|
                    0 <= w < views_of(pre.files@).len() && (#[trigger] views_of(pre.files@)[w]).name
                        == note_name_spec(pre.titles()[pa]);
                if w == fi as int {
                    // its file cannot be the removed one: storage keys differ
                    if pa < ti {
                        assert(note_name_spec(pre.titles()[pa]) != note_name_spec(
                            pre.titles()[ti],
                        ));
                    } else {
                        assert(note_name_spec(pre.titles()[ti]) != note_name_spec(
                            pre.titles()[pa],
                        ));
                    }
                    assert(false);
                }
                let w2: int = if w < fi as int { w } else { w - 1 };
                assert(post.files@[w2] == pre.files@[w]);
                assert(views_of(post.files@)[w2].name == note_name_spec(tpost[a]));
            }
            // no remaining file usurps the index record's name
            assert forall|a: int| 0 <= a < views_of(post.files@).len() implies (
            #[trigger] views_of(post.files@)[a]).name != index_record_name() by {
                let pa: int = if a < fi as int { a } else { a + 1 };
                assert(views_of(pre.files@)[pa] == pre.files@[pa]@);
                assert(post.files@[a] == pre.files@[pa]);
            }
        }
        DeleteOutcome::Deleted
    }

    /// Appends one line to the note resolved from the title, the collaborator
    /// interface consumed by the interactive loop. The index record itself
    /// cannot be selected; a missing note is reported, not an error.
    pub fn append_line(&mut self, title: &[u8], line: &[u8]) -> (r: AppendOutcome)
        requires
            old(self).wf(),
        ensures
            final(self).wf(),
            (r is Reserved) <==> title@ == contents_title(),
            (r is NotFound) <==> (title@ != contents_title() && !old(self).has_file(
                note_name_spec(title@),
            )),
            (r is Appended) <==> (title@ != contents_title() && old(self).has_file(
                note_name_spec(title@),
            )),
            final(self).titles() == old(self).titles(),
            !(r is Appended) ==> *final(self) == *old(self),
            r is Appended ==> ({
                let fv = views_of(old(self).files@);
                let i = names_of(fv).index_of_first(note_name_spec(title@))->Some_0;
                views_of(final(self).files@) == fv.update(i, append_to_file(fv[i], line@))
            }),
    {
        let c = contents_title_bytes();
        if bytes_eq(title, c.as_slice()) {
            return AppendOutcome::Reserved;
        }
        let name = note_name(title);
        let fopt = self.find_file(name.as_slice());
        match fopt {
            None => AppendOutcome::NotFound,
            Some(fi) => {
                let ghost pre = *self;
                let ghost fvs = views_of(pre.files@);
                let removed = self.files.remove(fi);
                let NoteFile { name: fname, data: mut data } = removed;
                let ghost data0 = data@;
                let mut i: usize = 0;
                while i < line.len()
                    invariant
                        0 <= i <= line@.len(),
                        data@ == data0 + line@.subrange(0, i as int),
                    decreases line@.len() - i,
                {
                    data.push(line[i]);
                    proof {
                        assert(data@ =~= data0 + line@.subrange(0, i as int + 1));
                    }
                    i += 1;
                }
                data.push(NEWLINE);
                proof {
                    assert(line@.subrange(0, line@.len() as int) =~= line@);
                    assert(data@ =~= data0 + line@ + seq![NEWLINE]);
                }
                self.files.insert(fi, NoteFile { name: fname, data });
                proof {
                    let post = *self;
                    names_of(fvs).index_of_first_ensures(note_name_spec(title@));
                    assert(names_of(fvs)[fi as int] == note_name_spec(title@));
                    assert(names_of(fvs).contains(note_name_spec(title@)));
                    let k = names_of(fvs).index_of_first(note_name_spec(title@))->Some_0;
                    assert(fvs[k].name == note_name_spec(title@));
                    assert(k == fi as int);
                    assert(views_of(post.files@) =~= fvs.update(
                        fi as int,
                        append_to_file(fvs[fi as int], line@),
                    ));
                    // every name is as it was, so the invariant carries over
                    assert forall|a: int| 0 <= a < views_of(post.files@).len() implies (
                    #[trigger] views_of(post.files@)[a]).name == views_of(pre.files@)[a].name by {
                        assert(views_of(post.files@)[a] == post.files@[a]@);
                        assert(views_of(pre.files@)[a] == pre.files@[a]@);
                    }
                    assert forall|t: int| 0 <= t < post.titles().len() implies has_named(
                        views_of(post.files@),
                        note_name_spec(#[trigger] post.titles()[t]),
                    ) by {
                        assert(post.titles()[t] == pre.titles()[t]);
                        let w = choose|w: int|
                            0 <= w < views_of(pre.files@).len() && (#[trigger] views_of(
                                pre.files@,
                            )[w]).name == note_name_spec(pre.titles()[t]);
                        assert(views_of(post.files@)[w].name == note_name_spec(post.titles()[t]));
                    }
                    assert forall|a: int| 0 <= a < views_of(post.files@).len() implies (
                    #[trigger] views_of(post.files@)[a]).name != index_record_name() by {
                        assert(views_of(pre.files@)[a] == pre.files@[a]@);
                    }
                }
                AppendOutcome::Appended
            },
        }
    }
}

impl StorageEngine {
    /// Checks the consistency invariant at run time, as when a directory is
    /// first read back from disk.
    fn check_wf(&self) -> (r: bool)
        ensures
            r == self.wf(),
    {
        let titles = self.index.list();
        let n = titles.len();
        // no title listed twice
        let mut i: usize = 0;
        while i < n
            invariant
                0 <= i <= n,
                n == self.titles().len(),
                seqs_of(titles@) == self.titles(),
                forall|a: int, b: int|
                    #![trigger self.titles()[a], self.titles()[b]]
                    0 <= a < i && a < b < n ==> self.titles()[a] != self.titles()[b],
            decreases n - i,
        {
            let mut j = i + 1;
            while j < n
                invariant
                    0 <= i < j <= n,
                    n == self.titles().len(),
                    seqs_of(titles@) == self.titles(),
                    forall|a: int, b: int|
                        #![trigger self.titles()[a], self.titles()[b]]
                        0 <= a < i && a < b < n ==> self.titles()[a] != self.titles()[b],
                    forall|b: int|
                        i < b < j ==> self.titles()[i as int] != #[trigger] self.titles()[b],
                decreases n - j,
            {
                if bytes_eq(titles[i].as_slice(), titles[j].as_slice()) {
                    proof {
                        assert(seqs_of(titles@)[i as int] == titles@[i as int]@);
                        assert(seqs_of(titles@)[j as int] == titles@[j as int]@);
                        assert(self.titles()[i as int] == self.titles()[j as int]);
                        assert(!self.titles().no_duplicates());
                    }
                    return false;
                }
                proof {
                    assert(seqs_of(titles@)[i as int] == titles@[i as int]@);
                    assert(seqs_of(titles@)[j as int] == titles@[j as int]@);
                }
                j += 1;
            }
            i += 1;
        }
        proof {
            assert(self.titles().no_duplicates()) by {
                assert forall|a: int, b: int|
                    0 <= a < self.titles().len() && 0 <= b < self.titles().len() && a != b implies
                    self.titles()[a] != self.titles()[b] by {
                    if a < b {
                        assert(self.titles()[a] != self.titles()[b]);
                    } else {
                        assert(self.titles()[b] != self.titles()[a]);
                    }
                }
            }
        }
        // the storage key of each listed title
        let mut keys: Vec<Vec<u8>> = Vec::new();
        let mut i: usize = 0;
        while i < n
            invariant
                0 <= i <= n,
                n == self.titles().len(),
                seqs_of(titles@) == self.titles(),
                keys@.len() == i,
                forall|k: int|
                    0 <= k < i ==> (#[trigger] keys@[k])@ == note_name_spec(self.titles()[k]),
            decreases n - i,
        {
            proof {
                assert(seqs_of(titles@)[i as int] == titles@[i as int]@);
            }
            let nm = note_name(titles[i].as_slice());
            keys.push(nm);
            i += 1;
        }
        // each listed title's note file is present
        let mut i: usize = 0;
        while i < n
            invariant
                0 <= i <= n,
                n == self.titles().len(),
                keys@.len() == n,
                forall|k: int|
                    0 <= k < n ==> (#[trigger] keys@[k])@ == note_name_spec(self.titles()[k]),
                forall|k: int|
                    0 <= k < i ==> self.has_file(note_name_spec(#[trigger] self.titles()[k])),
            decreases n - i,
        {
            match self.find_file(keys[i].as_slice()) {
                Some(_) => {},
                None => {
                    proof {
                        assert(!self.has_file(note_name_spec(self.titles()[i as int])));
                        assert(!self.wf()) by {
                            if self.wf() {
                                assert(has_named(
                                    views_of(self.files@),
                                    note_name_spec(self.titles()[i as int]),
                                ));
                            }
                        }
                    }
                    return false;
                },
            }
            i += 1;
        }
        // distinct listed titles keep distinct storage keys
        let mut i: usize = 0;
        while i < n
            invariant
                0 <= i <= n,
                n == self.titles().len(),
                keys@.len() == n,
                forall|k: int|
                    0 <= k < n ==> (#[trigger] keys@[k])@ == note_name_spec(self.titles()[k]),
                forall|a: int, b: int|
                    #![trigger self.titles()[a], self.titles()[b]]
                    0 <= a < i && a < b < n ==> note_name_spec(self.titles()[a]) != note_name_spec(
                        self.titles()[b],
                    ),
            decreases n - i,
        {
            let mut j = i + 1;
            while j < n
                invariant
                    0 <= i < j <= n,
                    n == self.titles().len(),
                    keys@.len() == n,
                    forall|k: int|
                        0 <= k < n ==> (#[trigger] keys@[k])@ == note_name_spec(self.titles()[k]),
                    forall|a: int, b: int|
                        #![trigger self.titles()[a], self.titles()[b]]
                        0 <= a < i && a < b < n ==> note_name_spec(self.titles()[a])
                            != note_name_spec(self.titles()[b]),
                    forall|b: int|
                        i < b < j ==> note_name_spec(self.titles()[i as int]) != note_name_spec(
                            #[trigger] self.titles()[b],
                        ),
                decreases n - j,
            {
                if bytes_eq(keys[i].as_slice(), keys[j].as_slice()) {
                    proof {
                        assert(note_name_spec(self.titles()[i as int]) == note_name_spec(
                            self.titles()[j as int],
                        ));
                    }
                    return false;
                }
                j += 1;
            }
            i += 1;
        }
        // no note file usurps the index record's name
        let c = contents_title_bytes();
        let rec = note_name(c.as_slice());
        match self.find_file(rec.as_slice()) {
            Some(_) => {
                proof {
                    assert(self.has_file(index_record_name()));
                    assert(!self.wf());
                }
                return false;
            },
            None => {
                proof {
                    assert forall|w: int| 0 <= w < views_of(self.files@).len() implies (
                    #[trigger] views_of(self.files@)[w]).name != index_record_name() by {
                        if views_of(self.files@)[w].name == index_record_name() {
                            assert(has_named(views_of(self.files@), index_record_name()));
                        }
                    }
                }
            },
        }
        proof {
            assert forall|a: int, b: int| 0 <= a < b < self.titles().len() implies note_name_spec(
                #[trigger] self.titles()[a],
            ) != note_name_spec(#[trigger] self.titles()[b]) by {
                assert(note_name_spec(self.titles()[a]) != note_name_spec(self.titles()[b]));
            }
            assert(self.wf());
        }
        true
    }

    /// Rebuilds a store from a parsed index and the note files read from
    /// disk. A pair that breaks the consistency invariant — a note file
    /// without its index entry's key, a title without its file — is a
    /// corruption state and is refused.
    pub fn assemble(index: ContentIndex, files: Vec<NoteFile>) -> (r: Option<StorageEngine>)
        ensures
            r is Some <==> wf_parts(index@, views_of(files@)),
            r matches Some(e) ==> e.index@ == index@ && e.files@ == files@ && e.wf(),
    {
        let e = StorageEngine { index, files };
        if e.check_wf() {
            Some(e)
        } else {
            None
        }
    }

    /// Writes the store back as a plain file set: the note files, and the
    /// index record rendered under its own storage key, ready for sealing.
    pub fn export(&self) -> (r: Vec<NoteFile>)
        ensures
            views_of(r@) == views_of(self.files@).push(
                (NoteFileView { name: index_record_name(), data: render_spec(self.titles()) }),
            ),
    {
        let mut out: Vec<NoteFile> = Vec::new();
        let mut i: usize = 0;
        while i < self.files.len()
            invariant
                0 <= i <= self.files@.len(),
                out@.len() == i,
                forall|j: int| 0 <= j < i ==> out@[j]@ == #[trigger] self.files@[j]@,
            decreases self.files@.len() - i,
        {
            let f = &self.files[i];
            let name = copy_bytes(f.name.as_slice());
            let data = copy_bytes(f.data.as_slice());
            out.push(NoteFile { name, data });
            i += 1;
        }
        let c = contents_title_bytes();
        let rec_name = note_name(c.as_slice());
        let rec_data = self.index.render();
        out.push(NoteFile { name: rec_name, data: rec_data });
        proof {
            assert(views_of(out@) =~= views_of(self.files@).push(
                NoteFileView { name: index_record_name(), data: render_spec(self.titles()) },
            ));
        }
        out
    }

    /// Reads a store back from a plain file set: the file under the index
    /// record's storage key names the titles, the rest are the note files.
    /// A set without an index record, or one whose index and files disagree,
    /// is a corruption state and is refused.
    pub fn load(files: Vec<NoteFile>) -> (r: Option<StorageEngine>)
        ensures
            names_of(views_of(files@)).index_of_first(index_record_name()) is None ==> r is None,
            names_of(views_of(files@)).index_of_first(index_record_name()) matches Some(i) ==> ({
                let titles = parse_spec(views_of(files@)[i].data);
                let rest = views_of(files@).remove(i);
                &&& (r is Some <==> wf_parts(titles, rest))
                &&& (r matches Some(e) ==> e.titles() == titles && views_of(e.files@) == rest
                    && e.wf())
            }),
    {
        let ghost fvs = views_of(files@);
        let c = contents_title_bytes();
        let rec = note_name(c.as_slice());
        let mut i: usize = 0;
        while i < files.len()
            invariant
                0 <= i <= files@.len(),
                rec@ == index_record_name(),
                fvs == views_of(files@),
                forall|j: int| 0 <= j < i ==> (#[trigger] fvs[j]).name != index_record_name(),
            decreases files@.len() - i,
        {
            if bytes_eq(files[i].name.as_slice(), rec.as_slice()) {
                proof {
                    assert(fvs[i as int].name == index_record_name());
                    names_of(fvs).index_of_first_ensures(index_record_name());
                    assert(names_of(fvs)[i as int] == index_record_name());
                    assert(names_of(fvs).contains(index_record_name()));
                    let k = names_of(fvs).index_of_first(index_record_name())->Some_0;
                    assert(names_of(fvs)[k] == index_record_name());
                    assert(k == i as int);
                }
                let mut rest = files;
                let rec_file = rest.remove(i);
                let idx = ContentIndex::parse(rec_file.data.as_slice());
                proof {
                    assert(rec_file@ == fvs[i as int]);
                    assert(views_of(rest@) =~= fvs.remove(i as int));
                }
                return Self::assemble(idx, rest);
            }
            proof {
                assert(fvs[i as int] == files@[i as int]@);
            }
            i += 1;
        }
        proof {
            names_of(fvs).index_of_first_ensures(index_record_name());
            if names_of(fvs).index_of_first(index_record_name()) is Some {
                let k = names_of(fvs).index_of_first(index_record_name())->Some_0;
                assert(names_of(fvs)[k] == index_record_name());
                assert(fvs[k].name == index_record_name());
            }
        }
        None
    }
}

/// A well-formed store survives its trip through the exported file set:
/// the index record stands at its storage key and nowhere else, parsing it
/// back yields the titles, and what remains are exactly the note files —
/// provided no title holds a newline.
pub proof fn lemma_export_load_roundtrip(e: StorageEngine)
    requires
        e.wf(),
        line_free(e.titles()),
    ensures
        ({
            let exported = views_of(e.files@).push(
                NoteFileView { name: index_record_name(), data: render_spec(e.titles()) },
            );
            let n = views_of(e.files@).len() as int;
            &&& names_of(exported).index_of_first(index_record_name()) == Some(n)
            &&& parse_spec(exported[n].data) == e.titles()
            &&& exported.remove(n) == views_of(e.files@)
            &&& wf_parts(parse_spec(exported[n].data), exported.remove(n))
        }),
{
    let exported = views_of(e.files@).push(
        NoteFileView { name: index_record_name(), data: render_spec(e.titles()) },
    );
    let n = views_of(e.files@).len() as int;
    assert(names_of(exported)[n] == index_record_name());
    assert(names_of(exported).contains(index_record_name()));
    names_of(exported).index_of_first_ensures(index_record_name());
    let k = names_of(exported).index_of_first(index_record_name())->Some_0;
    assert(names_of(exported)[k] == index_record_name());
    assert(k == n) by {
        if k < n {
            assert(exported[k] == views_of(e.files@)[k]);
            assert(views_of(e.files@)[k].name != index_record_name());
        }
    }
    crate::index::lemma_parse_render_roundtrip(e.titles());
    assert(exported.remove(n) =~= views_of(e.files@));
    assert(wf_parts(e.titles(), views_of(e.files@)));
}

/// A well-formed store lists any title it lists at all exactly once: after a
/// successful `create(title)`, the index holds `title` exactly once.
pub proof fn lemma_listed_once(e: StorageEngine, title: Seq<u8>)
    requires
        e.wf(),
        e.titles().contains(title),
    ensures
        e.titles().to_multiset().count(title) == 1,
{
    e.titles().to_multiset_ensures();
    e.titles().lemma_multiset_has_no_duplicates();
    assert(e.titles().to_multiset().count(title) > 0);
    assert(e.titles().to_multiset().contains(title));
}

} // verus!
