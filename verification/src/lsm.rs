//! The file-access guard: the path rules the kernel hook consults, the
//! hook's verdict on each `open`, and the reading of the rules file.
use vstd::prelude::*;
use vstd::utf8::*;
use crate::text::{trim, trim_bounds, chars_of, words_of, split_whitespace, str_eq, bytes_eq};
use crate::assoc::{assoc_keys, assoc_map, lemma_assoc_dom, lemma_assoc_index, lemma_assoc_push, lemma_assoc_remove, lemma_assoc_len};

verus! {

/// Size of the path buffer of a rule key, terminating zero included.
pub const MAX_PATH_LEN: usize = 256;

/// Access flags of a rule mask.
pub const AUTH_OPEN: u32 = 1;
pub const AUTH_READ: u32 = 2;
pub const AUTH_WRITE: u32 = 4;
pub const AUTH_EXEC: u32 = 8;

/// Number of rules the kernel table can hold.
pub const MAX_RULES: usize = 1024;

/// The verdict that refuses an open (`-EACCES`).
pub const DENY: i32 = -13;

/// A rule key: the absolute path, zero padded.
#[derive(Clone, Copy)]
pub struct FileRuleKey {
    pub path: [u8; MAX_PATH_LEN],
}

/// What a rule allows, as `AUTH_*` flags.
#[derive(Clone, Copy)]
pub struct FileRuleValue {
    pub allowed_mask: u32,
}

/// Whether all bits of `flag` are set in `mask`.
pub fn is_flag_set(mask: u32, flag: u32) -> (r: bool)
    ensures
        r == (mask & flag == flag),
{
    (mask & flag) == flag
}

/// The access an open with flags `f_flags` asks for: read for `O_RDONLY`,
/// write for `O_WRONLY`, both for `O_RDWR`, execute when bit `0x20` is set,
/// and open always.
pub open spec fn requested_access(f_flags: u32) -> u32 {
    let mode = f_flags & 3u32;
    ((if mode == 0 || mode == 2 { AUTH_READ } else { 0 })
        + (if mode == 1 || mode == 2 { AUTH_WRITE } else { 0 })
        + (if f_flags & 0x20u32 != 0 { AUTH_EXEC } else { 0 })
        + AUTH_OPEN) as u32
}

/// The access requested by an open with flags `f_flags`.
pub fn requested_mask(f_flags: u32) -> (r: u32)
    ensures
        r == requested_access(f_flags),
{
    let mode = f_flags & 0x0003;
    let mut requested: u32 = 0;
    if mode == 0 {
        requested = requested + AUTH_READ;
    }
    if mode == 1 {
        requested = requested + AUTH_WRITE;
    }
    if mode == 2 {
        requested = requested + (AUTH_READ + AUTH_WRITE);
    }
    if (f_flags & 0x0020) != 0 {
        requested = requested + AUTH_EXEC;
    }
    requested + AUTH_OPEN
}

/// The verdict on an open: refused when a rule covers the path and lacks a
/// requested flag, granted otherwise.
pub open spec fn open_verdict(rule: Option<u32>, f_flags: u32) -> i32 {
    match rule {
        Some(allowed) => if allowed & requested_access(f_flags) != requested_access(f_flags) {
            DENY
        } else {
            0
        },
        None => 0,
    }
}

spec fn table_assoc(es: Seq<(FileRuleKey, FileRuleValue)>) -> Seq<(Seq<u8>, u32)> {
    es.map_values(|e: (FileRuleKey, FileRuleValue)| (e.0.path@, e.1.allowed_mask))
}

/// The rule table: path buffer to allowed mask, at most `MAX_RULES` paths.
pub struct FileRules {
    entries: Vec<(FileRuleKey, FileRuleValue)>,
}

impl FileRules {
    /// The rules: path buffer to allowed mask.
    pub closed spec fn rules(&self) -> Map<Seq<u8>, u32> {
        assoc_map(table_assoc(self.entries@))
    }

    /// Each path is held once and the table is within its capacity.
    pub closed spec fn wf(&self) -> bool {
        &&& assoc_keys(table_assoc(self.entries@)).no_duplicates()
        &&& self.entries@.len() <= MAX_RULES
    }

    /// The number of rules.
    pub open spec fn count(&self) -> nat {
        self.rules().dom().len()
    }

    proof fn lemma_count(&self)
        requires
            self.wf(),
        ensures
            self.rules().dom().finite(),
            self.count() == self.entries@.len(),
            self.count() <= MAX_RULES,
    {
        lemma_assoc_len(table_assoc(self.entries@));
    }

    /// The empty table.
    pub fn new() -> (r: FileRules)
        ensures
            r.wf(),
            r.rules() == Map::<Seq<u8>, u32>::empty(),
    {
        let r = FileRules { entries: Vec::new() };
        assert(table_assoc(r.entries@) =~= Seq::empty());
        assert(assoc_keys(table_assoc(r.entries@)) =~= Seq::empty());
        r
    }

    fn find(&self, key: &FileRuleKey) -> (r: Option<usize>)
        ensures
            match r {
                Some(i) => i < self.entries@.len() && self.entries@[i as int].0.path@ == key.path@,
                None => !self.rules().dom().contains(key.path@),
            },
    {
        let mut i: usize = 0;
        while i < self.entries.len()
            invariant
                i <= self.entries@.len(),
                forall|j: int| 0 <= j < i ==> self.entries@[j].0.path@ != key.path@,
            decreases self.entries@.len() - i,
        {
            if bytes_eq(self.entries[i].0.path.as_slice(), key.path.as_slice()) {
                return Some(i);
            }
            i = i + 1;
        }
        proof {
            let ta = table_assoc(self.entries@);
            lemma_assoc_dom(ta);
            if assoc_keys(ta).contains(key.path@) {
                let j = choose|j: int| 0 <= j < assoc_keys(ta).len() && assoc_keys(ta)[j] == key.path@;
                assert(assoc_keys(ta)[j] == self.entries@[j].0.path@);
            }
        }
        None
    }

    /// The rule of a path, if any.
    pub fn get(&self, key: &FileRuleKey) -> (r: Option<FileRuleValue>)
        requires
            self.wf(),
        ensures
            match r {
                Some(v) => self.rules().dom().contains(key.path@) && self.rules()[key.path@] == v.allowed_mask,
                None => !self.rules().dom().contains(key.path@),
            },
    {
        match self.find(key) {
            Some(i) => {
                proof {
                    lemma_assoc_index(table_assoc(self.entries@), i as int);
                }
                Some(self.entries[i].1)
            },
            None => None,
        }
    }

    /// Sets the rule of a path. A new path is refused when the table is
    /// full; a path already held is always updated.
    pub fn insert(&mut self, key: FileRuleKey, value: FileRuleValue) -> (r: Result<(), ()>)
        requires
            old(self).wf(),
        ensures
            final(self).wf(),
            r is Ok <==> (old(self).rules().dom().contains(key.path@) || old(self).count() < MAX_RULES),
            r is Ok ==> final(self).rules() == old(self).rules().insert(key.path@, value.allowed_mask),
            r is Err ==> final(self).rules() == old(self).rules(),
    {
        proof {
            old(self).lemma_count();
        }
        let ghost ta0 = table_assoc(self.entries@);
        let ghost base: Seq<(Seq<u8>, u32)>;
        match self.find(&key) {
            Some(i) => {
                proof {
                    lemma_assoc_index(ta0, i as int);
                    lemma_assoc_remove(ta0, i as int);
                    assert(table_assoc(self.entries@.remove(i as int)) =~= ta0.remove(i as int));
                    base = ta0.remove(i as int);
                }
                self.entries.remove(i);
            },
            None => {
                if self.entries.len() >= MAX_RULES {
                    return Err(());
                }
                proof {
                    lemma_assoc_dom(ta0);
                    assert(assoc_map(ta0).remove(key.path@) =~= assoc_map(ta0));
                    base = ta0;
                }
            },
        }
        let entry = (key, value);
        self.entries.push(entry);
        proof {
            assert(table_assoc(self.entries@) =~= base.push((key.path@, value.allowed_mask)));
            lemma_assoc_push(base, (key.path@, value.allowed_mask));
            assert(self.rules() =~= old(self).rules().insert(key.path@, value.allowed_mask));
        }
        Ok(())
    }
}

/// What the kernel hook sees of an opened file: the resolved path buffer,
/// the length the path resolution gave (not positive when it failed), and
/// the open flags.
pub struct OpenFile {
    pub path: [u8; MAX_PATH_LEN],
    pub path_len: i64,
    pub f_flags: u32,
}

/// The rule covering a path buffer, if any.
pub open spec fn rule_for(rules: Map<Seq<u8>, u32>, path: Seq<u8>) -> Option<u32> {
    if rules.dom().contains(path) {
        Some(rules[path])
    } else {
        None
    }
}

/// The hook's verdict on an open: granted (0) without a file or a resolved
/// path; otherwise the verdict of the rule of the path.
pub open spec fn file_open_verdict(rules: Map<Seq<u8>, u32>, file: Option<OpenFile>) -> i32 {
    match file {
        None => 0,
        Some(f) => if f.path_len <= 0 {
            0
        } else {
            open_verdict(rule_for(rules, f.path@), f.f_flags)
        },
    }
}

/// The kernel hook on `open`: 0 grants, `DENY` refuses.
pub fn file_open(rules: &FileRules, file: Option<&OpenFile>) -> (r: i32)
    requires
        rules.wf(),
    ensures
        r == file_open_verdict(rules.rules(), match file {
            Some(f) => Some(*f),
            None => None,
        }),
{
    let f = match file {
        Some(f) => f,
        None => return 0,
    };
    if f.path_len <= 0 {
        return 0;
    }
    let key = FileRuleKey { path: f.path };
    match rules.get(&key) {
        Some(rule) => {
            let requested = requested_mask(f.f_flags);
            if (rule.allowed_mask & requested) != requested {
                return DENY;
            }
            0
        },
        None => 0,
    }
}

/// An open of a path that no rule covers is granted.
pub proof fn law_uncovered_path_granted(rules: Map<Seq<u8>, u32>, f: OpenFile)
    requires
        !rules.dom().contains(f.path@),
    ensures
        file_open_verdict(rules, Some(f)) == 0,
{
}

/// Every open asks for the open flag, whatever its flags.
pub proof fn law_open_always_requested(f_flags: u32)
    ensures
        requested_access(f_flags) & AUTH_OPEN == AUTH_OPEN,
        requested_access(f_flags) <= AUTH_OPEN + AUTH_READ + AUTH_WRITE + AUTH_EXEC,
{
    let r = requested_access(f_flags);
    assert(r % 2 == 1 && r < 16);
    assert(r % 2 == 1 ==> r & 1u32 == 1u32) by (bit_vector);
}

/// A rule that allows all four flags grants every open of its path.
pub proof fn law_full_mask_grants(allowed: u32, f_flags: u32)
    requires
        allowed & 15u32 == 15u32,
    ensures
        open_verdict(Some(allowed), f_flags) == 0,
{
    let r = requested_access(f_flags);
    assert(r < 16);
    assert(allowed & 15u32 == 15u32 && r < 16 ==> allowed & r == r) by (bit_vector);
}

/// A rule without the open flag refuses every open of its path.
pub proof fn law_no_open_flag_denies(allowed: u32, f_flags: u32)
    requires
        allowed & AUTH_OPEN == 0,
    ensures
        open_verdict(Some(allowed), f_flags) == DENY,
{
    let r = requested_access(f_flags);
    assert(r % 2 == 1);
    assert(allowed & 1u32 == 0 && r % 2 == 1 ==> allowed & r != r) by (bit_vector);
}


/// A path as a rule key: its first bytes, at most `MAX_PATH_LEN - 1`, then zeros.
pub open spec fn path_key(b: Seq<u8>) -> Seq<u8> {
    Seq::new(MAX_PATH_LEN as nat, |i: int| if i < b.len() && i < MAX_PATH_LEN - 1 { b[i] } else { 0u8 })
}

/// Whether a rule field reads exactly `1`.
pub open spec fn flag_on(w: Seq<char>) -> bool {
    w == seq!['1']
}

/// The mask of a rule line's four flag fields (open, read, write, exec).
pub open spec fn mask_of(w: Seq<Seq<char>>) -> u32 {
    ((if flag_on(w[1]) { AUTH_OPEN } else { 0 })
        + (if flag_on(w[2]) { AUTH_READ } else { 0 })
        + (if flag_on(w[3]) { AUTH_WRITE } else { 0 })
        + (if flag_on(w[4]) { AUTH_EXEC } else { 0 })) as u32
}

/// What a line of the rules file says.
pub enum LineView {
    Skip,
    Malformed,
    Rule(Seq<u8>, u32),
}

/// A line of the rules file: blank lines and lines starting with `#` are
/// skipped; a rule is five white-space separated fields, the path and four
/// flags, each `1` to allow.
pub open spec fn rule_line(line: Seq<char>) -> LineView {
    if trim(line).len() == 0 || (line.len() > 0 && line[0] == '#') {
        LineView::Skip
    } else {
        let w = words_of(line);
        if w.len() != 5 {
            LineView::Malformed
        } else {
            LineView::Rule(path_key(encode_utf8(w[0])), mask_of(w))
        }
    }
}

/// A parsed line of the rules file.
pub enum RuleLine {
    Skip,
    Malformed,
    Rule(FileRuleKey, FileRuleValue),
}

pub open spec fn line_view(r: RuleLine) -> LineView {
    match r {
        RuleLine::Skip => LineView::Skip,
        RuleLine::Malformed => LineView::Malformed,
        RuleLine::Rule(k, v) => LineView::Rule(k.path@, v.allowed_mask),
    }
}

fn path_key_of(path: &str) -> (r: FileRuleKey)
    ensures
        r.path@ == path_key(encode_utf8(path@)),
{
    let src = path.as_bytes();
    let mut len = src.len();
    if len > MAX_PATH_LEN - 1 {
        len = MAX_PATH_LEN - 1;
    }
    let mut buf = [0u8; MAX_PATH_LEN];
    let mut i: usize = 0;
    while i < len
        invariant
            len <= src@.len(),
            len < MAX_PATH_LEN,
            i <= len,
            src@ == encode_utf8(path@),
            forall|j: int| 0 <= j < i ==> buf@[j] == src@[j],
            forall|j: int| i <= j < MAX_PATH_LEN ==> buf@[j] == 0u8,
        decreases len - i,
    {
        buf[i] = src[i];
        i = i + 1;
    }
    assert(buf@ =~= path_key(encode_utf8(path@)));
    FileRuleKey { path: buf }
}

fn is_one(w: &String) -> (r: bool)
    ensures
        r == flag_on(w@),
{
    proof {
        reveal_strlit("1");
        assert("1"@ =~= seq!['1']);
    }
    str_eq(w.as_str(), "1")
}

/// Reads one line of the rules file.
pub fn parse_rule_line(line: &str) -> (r: RuleLine)
    ensures
        line_view(r) == rule_line(line@),
{
    let cs = chars_of(line);
    let (a, b) = trim_bounds(cs.as_slice());
    if a == b || (cs.len() > 0 && cs[0] == '#') {
        return RuleLine::Skip;
    }
    let parts = split_whitespace(line);
    let ghost w = words_of(line@);
    if parts.len() != 5 {
        return RuleLine::Malformed;
    }
    proof {
        assert(parts@[0]@ == w[0]);
        assert(parts@[1]@ == w[1]);
        assert(parts@[2]@ == w[2]);
        assert(parts@[3]@ == w[3]);
        assert(parts@[4]@ == w[4]);
    }
    let mut mask: u32 = 0;
    if is_one(&parts[1]) {
        mask = mask + AUTH_OPEN;
    }
    if is_one(&parts[2]) {
        mask = mask + AUTH_READ;
    }
    if is_one(&parts[3]) {
        mask = mask + AUTH_WRITE;
    }
    if is_one(&parts[4]) {
        mask = mask + AUTH_EXEC;
    }
    let key = path_key_of(parts[0].as_str());
    RuleLine::Rule(key, FileRuleValue { allowed_mask: mask })
}

/// The table after one line of the rules file: a rule is set unless the
/// table is full and the path is new.
pub open spec fn apply_line(m: Map<Seq<u8>, u32>, line: Seq<char>) -> Map<Seq<u8>, u32> {
    match rule_line(line) {
        LineView::Rule(k, v) => if m.dom().contains(k) || m.dom().len() < MAX_RULES {
            m.insert(k, v)
        } else {
            m
        },
        _ => m,
    }
}

/// The table after the lines of the rules file, in order.
pub open spec fn apply_lines(m: Map<Seq<u8>, u32>, lines: Seq<Seq<char>>) -> Map<Seq<u8>, u32>
    decreases lines.len(),
{
    if lines.len() == 0 {
        m
    } else {
        apply_line(apply_lines(m, lines.drop_last()), lines.last())
    }
}

/// Why a line of the rules file was not applied.
pub enum LineIssue {
    /// Not five fields.
    Malformed,
    /// A new path while the table is full.
    TableFull,
}

/// The issue a line meets against a table, if any.
pub open spec fn line_issue(m: Map<Seq<u8>, u32>, line: Seq<char>) -> Option<LineIssue> {
    match rule_line(line) {
        LineView::Malformed => Some(LineIssue::Malformed),
        LineView::Rule(k, v) => if m.dom().contains(k) || m.dom().len() < MAX_RULES {
            None
        } else {
            Some(LineIssue::TableFull)
        },
        LineView::Skip => None,
    }
}

/// The lines not applied, with their index and issue, in order.
pub open spec fn line_issues(m: Map<Seq<u8>, u32>, lines: Seq<Seq<char>>) -> Seq<(int, LineIssue)>
    decreases lines.len(),
{
    if lines.len() == 0 {
        Seq::empty()
    } else {
        let prev = line_issues(m, lines.drop_last());
        match line_issue(apply_lines(m, lines.drop_last()), lines.last()) {
            Some(i) => prev.push(((lines.len() - 1) as int, i)),
            None => prev,
        }
    }
}

impl FileRules {
    /// Applies the lines of the rules file in order (existing rules are
    /// overwritten, others kept) and returns the lines not applied.
    pub fn reload_rules(&mut self, lines: &Vec<String>) -> (r: Vec<(usize, LineIssue)>)
        requires
            old(self).wf(),
        ensures
            final(self).wf(),
            final(self).rules() == apply_lines(old(self).rules(), lines@.map_values(|l: String| l@)),
            r@.map_values(|p: (usize, LineIssue)| (p.0 as int, p.1))
                == line_issues(old(self).rules(), lines@.map_values(|l: String| l@)),
    {
        let ghost m0 = self.rules();
        let ghost ls = lines@.map_values(|l: String| l@);
        let mut issues: Vec<(usize, LineIssue)> = Vec::new();
        let mut i: usize = 0;
        proof {
            assert(ls.take(0) =~= Seq::<Seq<char>>::empty());
            assert(issues@.map_values(|p: (usize, LineIssue)| (p.0 as int, p.1)) =~= Seq::<(int, LineIssue)>::empty());
        }
        while i < lines.len()
            invariant
                self.wf(),
                m0 == old(self).rules(),
                ls == lines@.map_values(|l: String| l@),
                i <= lines@.len(),
                self.rules() == apply_lines(m0, ls.take(i as int)),
                issues@.map_values(|p: (usize, LineIssue)| (p.0 as int, p.1)) == line_issues(m0, ls.take(i as int)),
            decreases lines@.len() - i,
        {
            proof {
                assert(ls.take(i + 1).drop_last() =~= ls.take(i as int));
                assert(ls.take(i + 1).last() == lines@[i as int]@);
                self.lemma_count();
            }
            let ghost before = self.rules();
            let ghost prev = issues@.map_values(|p: (usize, LineIssue)| (p.0 as int, p.1));
            match parse_rule_line(lines[i].as_str()) {
                RuleLine::Rule(key, value) => {
                    match self.insert(key, value) {
                        Ok(()) => {},
                        Err(()) => {
                            issues.push((i, LineIssue::TableFull));
                            proof {
                                assert(issues@.map_values(|p: (usize, LineIssue)| (p.0 as int, p.1))
                                    =~= prev.push((i as int, LineIssue::TableFull)));
                            }
                        },
                    }
                },
                RuleLine::Malformed => {
                    issues.push((i, LineIssue::Malformed));
                    proof {
                        assert(issues@.map_values(|p: (usize, LineIssue)| (p.0 as int, p.1))
                            =~= prev.push((i as int, LineIssue::Malformed)));
                    }
                },
                RuleLine::Skip => {},
            }
            i = i + 1;
        }
        proof {
            assert(ls.take(i as int) =~= ls);
        }
        issues
    }
}

} // verus!
