//! When each monitored file last produced a line, and the heartbeat summary.
use vstd::prelude::*;
use crate::keys::{first_index, lemma_first_index};
use crate::text::{lex_lt, lemma_lex_total, text_less, signed_decimal, append_signed_decimal};
use crate::time::valid_time;

verus! {

pub type FilesView = Seq<(Seq<char>, i64)>;

pub open spec fn files_view(v: Seq<(String, i64)>) -> FilesView {
    v.map_values(|e: (String, i64)| (e.0@, e.1))
}

/// Paths strictly increase in lexicographic order.
pub open spec fn sorted_paths(s: FilesView) -> bool {
    forall|i: int| 0 <= i < s.len() - 1 ==> lex_lt(#[trigger] s[i].0, s[i + 1].0)
}

/// Record that `path` was seen at `now`, keeping the paths sorted.
pub open spec fn touched(s: FilesView, path: Seq<char>, now: i64) -> FilesView
    decreases s.len(),
{
    if s.len() == 0 {
        seq![(path, now)]
    } else if s[0].0 == path {
        seq![(path, now)] + s.drop_first()
    } else if lex_lt(path, s[0].0) {
        seq![(path, now)] + s
    } else {
        seq![s[0]] + touched(s.drop_first(), path, now)
    }
}

proof fn lemma_touched_at(s: FilesView, path: Seq<char>, now: i64, i: int)
    requires
        0 <= i <= s.len(),
        forall|j: int| 0 <= j < i ==> lex_lt(#[trigger] s[j].0, path),
        i < s.len() ==> !lex_lt(s[i].0, path),
    ensures
        (i < s.len() && s[i].0 == path) ==> touched(s, path, now) == s.update(i, (path, now)),
        !(i < s.len() && s[i].0 == path) ==> touched(s, path, now) == s.insert(i, (path, now)),
    decreases i,
{
    if i > 0 {
        let t = s.drop_first();
        lemma_lex_total(s[0].0, path);
        lemma_touched_at(t, path, now, i - 1);
        assert(touched(s, path, now) == seq![s[0]] + touched(t, path, now));
        if i < s.len() && s[i].0 == path {
            assert(seq![s[0]] + t.update(i - 1, (path, now)) =~= s.update(i, (path, now)));
        } else {
            assert(seq![s[0]] + t.insert(i - 1, (path, now)) =~= s.insert(i, (path, now)));
        }
    } else if s.len() > 0 {
        lemma_lex_total(s[0].0, path);
        if s[0].0 == path {
            assert(seq![(path, now)] + s.drop_first() =~= s.update(0, (path, now)));
        } else {
            assert(seq![(path, now)] + s =~= s.insert(0, (path, now)));
        }
    } else {
        assert(seq![(path, now)] =~= s.insert(0, (path, now)));
    }
}

proof fn lemma_touched_sorted(s: FilesView, path: Seq<char>, now: i64, i: int)
    requires
        sorted_paths(s),
        0 <= i <= s.len(),
        forall|j: int| 0 <= j < i ==> lex_lt(#[trigger] s[j].0, path),
        i < s.len() ==> !lex_lt(s[i].0, path),
    ensures
        sorted_paths(touched(s, path, now)),
{
    lemma_touched_at(s, path, now, i);
    let t = touched(s, path, now);
    if i < s.len() {
        lemma_lex_total(s[i].0, path);
    }
    assert forall|j: int| 0 <= j < t.len() - 1 implies lex_lt(#[trigger] t[j].0, t[j + 1].0) by {
        if i < s.len() && s[i].0 == path {
            assert(t[j].0 == s[j].0 && t[j + 1].0 == s[j + 1].0);
        } else if j + 1 < i {
            assert(t[j] == s[j] && t[j + 1] == s[j + 1]);
        } else if j + 1 == i {
            assert(t[j] == s[j]);
        } else if j == i {
        } else {
            assert(t[j] == s[j - 1] && t[j + 1] == s[j]);
        }
    }
}

/// Each file as "\t<path> : <age>s ago\n", in order.
pub open spec fn file_lines(files: FilesView, now: int) -> Seq<char>
    decreases files.len(),
{
    if files.len() == 0 {
        Seq::empty()
    } else {
        file_lines(files.drop_last(), now) + seq!['\t'] + files.last().0 + seq![' ', ':', ' ']
            + signed_decimal(now - files.last().1) + seq!['s', ' ', 'a', 'g', 'o', '\n']
    }
}

/// Each file-set as "<id>:\n", its file lines, and a blank line.
pub open spec fn set_blocks(sets: Seq<(Seq<char>, FilesView)>, now: int) -> Seq<char>
    decreases sets.len(),
{
    if sets.len() == 0 {
        Seq::empty()
    } else {
        set_blocks(sets.drop_last(), now) + sets.last().0 + seq![':', '\n'] + file_lines(sets.last().1, now) + seq!['\n']
    }
}

pub open spec fn heartbeat(sets: Seq<(Seq<char>, FilesView)>, now: int) -> Seq<char> {
    seq!['F', 'i', 'l', 'e', 's', ' ', 'l', 'a', 's', 't', ' ', 's', 'e', 'e', 'n', ':', ' ', '\n', '\n'] + set_blocks(sets, now)
}

/// Per file-set, the paths seen and when, sorted by path.
pub struct LastSeen {
    sets: Vec<(String, Vec<(String, i64)>)>,
}

impl View for LastSeen {
    type V = Seq<(Seq<char>, FilesView)>;

    closed spec fn view(&self) -> Seq<(Seq<char>, FilesView)> {
        self.sets@.map_values(|e: (String, Vec<(String, i64)>)| (e.0@, files_view(e.1@)))
    }
}

pub open spec fn set_ids(v: Seq<(Seq<char>, FilesView)>) -> Seq<Seq<char>> {
    v.map_values(|e: (Seq<char>, FilesView)| e.0)
}

/// The table after `path` of `file_set` was seen at `now`.
pub open spec fn seen(v: Seq<(Seq<char>, FilesView)>, file_set: Seq<char>, path: Seq<char>, now: i64) -> Seq<(Seq<char>, FilesView)> {
    let i = first_index(set_ids(v), file_set);
    if i >= 0 {
        v.update(i, (file_set, touched(v[i].1, path, now)))
    } else {
        v.push((file_set, seq![(path, now)]))
    }
}

impl LastSeen {
    pub closed spec fn wf(&self) -> bool {
        forall|k: int| 0 <= k < self@.len() ==> {
            let files = #[trigger] self@[k].1;
            &&& sorted_paths(files)
            &&& forall|j: int| 0 <= j < files.len() ==> valid_time(#[trigger] files[j].1 as int)
        }
    }

    pub fn new() -> (r: LastSeen)
        ensures
            r.wf(),
            r@.len() == 0,
    {
        LastSeen { sets: Vec::new() }
    }

    /// Record that `path` of `file_set` produced a line at `now`.
    pub fn file_seen(&mut self, file_set: &str, path: &str, now: i64)
        requires
            old(self).wf(),
            valid_time(now as int),
        ensures
            final(self).wf(),
            final(self)@ == seen(old(self)@, file_set@, path@, now),
    {
        let ghost v = self@;
        let mut k: usize = 0;
        while k < self.sets.len() && !(self.sets[k].0 == file_set.to_owned())
            invariant
                v == self@,
                k <= self.sets@.len(),
                forall|j: int| 0 <= j < k ==> (#[trigger] set_ids(v)[j]) != file_set@,
            decreases self.sets@.len() - k,
        {
            k = k + 1;
        }
        proof {
            lemma_first_index(set_ids(v), file_set@, k as int);
        }
        if k == self.sets.len() {
            let mut files: Vec<(String, i64)> = Vec::new();
            files.push((path.to_owned(), now));
            assert(files_view(files@) =~= seq![(path@, now)]);
            self.sets.push((file_set.to_owned(), files));
            assert(self@ =~= v.push((file_set@, seq![(path@, now)])));
        } else {
            let mut files: Vec<(String, i64)> = Vec::new();
            let old_files = &self.sets[k].1;
            let ghost s = files_view(old_files@);
            let mut i: usize = 0;
            while i < old_files.len() && text_less(old_files[i].0.as_str(), path)
                invariant
                    s == files_view(old_files@),
                    i <= s.len(),
                    files@ == old_files@.subrange(0, i as int),
                    forall|j: int| 0 <= j < i ==> lex_lt(#[trigger] s[j].0, path@),
                decreases s.len() - i,
            {
                files.push((old_files[i].0.clone(), old_files[i].1));
                i = i + 1;
            }
            proof {
                lemma_touched_at(s, path@, now, i as int);
            }
            let ghost t = touched(s, path@, now);
            let ghost upd = i < s.len() && s[i as int].0 == path@;
            let mut rest: usize = i;
            if i < old_files.len() && old_files[i].0 == path.to_owned() {
                rest = i + 1;
            }
            files.push((path.to_owned(), now));
            assert(files_view(files@) =~= t.subrange(0, i + 1));
            while rest < old_files.len()
                invariant
                    s == files_view(old_files@),
                    t == touched(s, path@, now),
                    upd ==> t == s.update(i as int, (path@, now)),
                    !upd ==> t == s.insert(i as int, (path@, now)),
                    i < rest + 1,
                    upd ==> i < rest,
                    rest <= s.len(),
                    files@.len() == rest + (if upd { 0int } else { 1int }),
                    files_view(files@) == t.subrange(0, files@.len() as int),
                decreases s.len() - rest,
            {
                let ghost before = files_view(files@);
                assert(s[rest as int] == (old_files@[rest as int].0@, old_files@[rest as int].1));
                files.push((old_files[rest].0.clone(), old_files[rest].1));
                assert(files_view(files@) =~= before.push(s[rest as int]));
                rest = rest + 1;
                assert(files_view(files@) =~= t.subrange(0, files@.len() as int));
            }
            assert(files_view(files@) =~= t);
            self.sets.set(k, (file_set.to_owned(), files));
            assert(self@ =~= v.update(k as int, (file_set@, t)));
            proof {
                assert(v[k as int].1 == s);
                lemma_touched_sorted(s, path@, now, i as int);
                assert forall|kk: int| 0 <= kk < self@.len() implies ({
                    let files = #[trigger] self@[kk].1;
                    &&& sorted_paths(files)
                    &&& forall|j: int| 0 <= j < files.len() ==> valid_time(#[trigger] files[j].1 as int)
                }) by {
                    if kk == k {
                        assert forall|j: int| 0 <= j < t.len() implies valid_time(#[trigger] t[j].1 as int) by {
                            if upd {
                                if j != i { assert(t[j] == s[j]); }
                            } else if j < i {
                                assert(t[j] == s[j]);
                            } else if j > i {
                                assert(t[j] == s[j - 1]);
                            }
                        }
                    } else {
                        assert(self@[kk] == v[kk]);
                    }
                }
            }
        }
    }

    fn append_file_lines(out: &mut String, files: &Vec<(String, i64)>, now: i64)
        requires
            valid_time(now as int),
            forall|j: int| 0 <= j < files@.len() ==> valid_time(#[trigger] files@[j].1 as int),
        ensures
            final(out)@ == old(out)@ + file_lines(files_view(files@), now as int),
    {
        let ghost fv = files_view(files@);
        let ghost start = out@;
        let mut i: usize = 0;
        while i < files.len()
            invariant
                fv == files_view(files@),
                valid_time(now as int),
                forall|j: int| 0 <= j < files@.len() ==> valid_time(#[trigger] files@[j].1 as int),
                i <= files@.len(),
                out@ == start + file_lines(fv.subrange(0, i as int), now as int),
            decreases files@.len() - i,
        {
            let ghost before = out@;
            proof {
                reveal_strlit("\t");
                reveal_strlit(" : ");
                reveal_strlit("s ago\n");
            }
            assert(valid_time(files@[i as int].1 as int));
            out.append("\t");
            out.append(files[i].0.as_str());
            out.append(" : ");
            append_signed_decimal(out, now - files[i].1);
            out.append("s ago\n");
            proof {
                let p = fv.subrange(0, i + 1);
                assert(p.drop_last() =~= fv.subrange(0, i as int));
                assert(p.last() == fv[i as int]);
                assert(out@ =~= start + file_lines(p, now as int));
            }
            i = i + 1;
        }
        assert(fv.subrange(0, fv.len() as int) =~= fv);
    }

    /// "Files last seen:" and, per file-set, each file with its age at `now`.
    pub fn summary(&self, now: i64) -> (r: String)
        requires
            self.wf(),
            valid_time(now as int),
        ensures
            r@ == heartbeat(self@, now as int),
    {
        let ghost v = self@;
        let mut out = String::new();
        proof {
            reveal_strlit("Files last seen: \n\n");
        }
        out.append("Files last seen: \n\n");
        let ghost start = out@;
        let mut k: usize = 0;
        while k < self.sets.len()
            invariant
                v == self@,
                self.wf(),
                valid_time(now as int),
                k <= v.len(),
                out@ == start + set_blocks(v.subrange(0, k as int), now as int),
            decreases v.len() - k,
        {
            proof {
                reveal_strlit(":\n");
                reveal_strlit("\n");
            }
            let ghost before = out@;
            out.append(self.sets[k].0.as_str());
            out.append(":\n");
            proof {
                let files = v[k as int].1;
                assert(files == files_view(self.sets@[k as int].1@));
                assert forall|j: int| 0 <= j < self.sets@[k as int].1@.len() implies valid_time(#[trigger] self.sets@[k as int].1@[j].1 as int) by {
                    assert(files[j].1 == self.sets@[k as int].1@[j].1);
                }
            }
            LastSeen::append_file_lines(&mut out, &self.sets[k].1, now);
            out.append("\n");
            proof {
                let p = v.subrange(0, k + 1);
                assert(p.drop_last() =~= v.subrange(0, k as int));
                assert(p.last() == v[k as int]);
                assert(out@ =~= start + set_blocks(p, now as int));
            }
            k = k + 1;
        }
        assert(v.subrange(0, v.len() as int) =~= v);
        out
    }
}

} // verus!
