//! Simplified names of the low-level operations that statements invoke, and
//! the fixed list of operations whose hits are too ubiquitous to carry a
//! meaningful coverage signal.
use crate::text::str_eq;
use vstd::prelude::*;

verus! {

/// The name of a low-level operation with its generic-parameter and
/// call-argument suffixes stripped.
pub struct SimpleLibfuncName(pub String);

/// One statement of the intermediate program: an invocation of a declared
/// operation, or a return.
pub enum SierraStatement {
    Invocation { libfunc_id: u64 },
    Return,
}

/// One declared operation: its numeric id and its full name.
pub struct LibfuncDeclaration {
    pub id: u64,
    pub long_id: String,
}

/// Operations that occur in nearly every statement. Counting their hits
/// trades a few false negatives for many fewer false positives.
pub open spec fn is_unreliable_name(n: Seq<char>) -> bool {
    ||| n == "drop"@
    ||| n == "enable_ap_tracking"@
    ||| n == "disable_ap_tracking"@
    ||| n == "struct_deconstruct"@
    ||| n == "dup"@
    ||| n == "enum_init"@
    ||| n == "struct_construct"@
    ||| n == "store_temp"@
    ||| n == "return"@
    ||| n == "rename"@
    ||| n == "snapshot_take"@
    ||| n == "struct_snapshot_deconstruct"@
    ||| n == "const_as_immediate"@
    ||| n == "contract_address_const"@
}

/// Whether a simplified operation name is on the unreliable list.
pub fn is_unreliable_libfunc(name: &str) -> (r: bool)
    ensures
        r == is_unreliable_name(name@),
{
    str_eq(name, "drop") || str_eq(name, "enable_ap_tracking") || str_eq(
        name,
        "disable_ap_tracking",
    ) || str_eq(name, "struct_deconstruct") || str_eq(name, "dup") || str_eq(name, "enum_init")
        || str_eq(name, "struct_construct") || str_eq(name, "store_temp") || str_eq(name, "return")
        || str_eq(name, "rename") || str_eq(name, "snapshot_take") || str_eq(
        name,
        "struct_snapshot_deconstruct",
    ) || str_eq(name, "const_as_immediate") || str_eq(name, "contract_address_const")
}

/// The position of the first character that belongs to `delims`, or the
/// length of the sequence when there is none.
pub open spec fn first_delim(s: Seq<char>, delims: Seq<char>) -> int
    decreases s.len(),
{
    if s.len() == 0 {
        0
    } else if delims.contains(s[0]) {
        0
    } else {
        1 + first_delim(s.skip(1), delims)
    }
}

pub proof fn lemma_first_delim(s: Seq<char>, delims: Seq<char>)
    ensures
        0 <= first_delim(s, delims) <= s.len(),
        forall|i: int| 0 <= i < first_delim(s, delims) ==> !delims.contains(#[trigger] s[i]),
        first_delim(s, delims) < s.len() ==> delims.contains(s[first_delim(s, delims)]),
    decreases s.len(),
{
    if s.len() > 0 && !delims.contains(s[0]) {
        lemma_first_delim(s.skip(1), delims);
        assert forall|i: int| 0 <= i < first_delim(s, delims) implies !delims.contains(
            #[trigger] s[i],
        ) by {
            if i > 0 {
                assert(s.skip(1)[i - 1] == s[i]);
            }
        }
        if first_delim(s, delims) < s.len() {
            assert(s.skip(1)[first_delim(s.skip(1), delims)] == s[first_delim(s, delims)]);
        }
    }
}

/// The prefix of `s` before the first character of `delims`.
pub open spec fn truncated_at(s: Seq<char>, delims: Seq<char>) -> Seq<char> {
    s.take(first_delim(s, delims))
}

/// Truncate the string at the first occurrence of any of the delimiters.
pub fn truncate_at_chars(input: String, delimiters: &[char]) -> (r: String)
    ensures
        r@ == truncated_at(input@, delimiters@),
{
    let n = input.as_str().unicode_len();
    let mut i: usize = 0;
    proof {
        lemma_first_delim(input@, delimiters@);
        assert(input@.skip(0int) =~= input@);
    }
    loop
        invariant
            i <= n,
            n == input@.len(),
            first_delim(input@, delimiters@) == i + first_delim(input@.skip(i as int), delimiters@),
            forall|j: int| 0 <= j < i ==> !delimiters@.contains(#[trigger] input@[j]),
        ensures
            i == first_delim(input@, delimiters@),
        decreases n - i,
    {
        if i >= n {
            proof {
                assert(input@.skip(i as int) =~= Seq::<char>::empty());
            }
            break ;
        }
        let c = input.as_str().get_char(i);
        proof {
            assert(input@.skip(i as int)[0] == input@[i as int]);
        }
        if slice_contains_char(delimiters, c) {
            break ;
        }
        proof {
            assert(input@.skip(i as int).skip(1) =~= input@.skip(i + 1));
        }
        i = i + 1;
    }
    let r = input.as_str().substring_char(0, i);
    proof {
        assert(r@ =~= truncated_at(input@, delimiters@));
    }
    String::from_str(r)
}

/// Whether the slice holds the character.
fn slice_contains_char(delimiters: &[char], c: char) -> (r: bool)
    ensures
        r == delimiters@.contains(c),
{
    let n = delimiters.len();
    let mut i: usize = 0;
    while i < n
        invariant
            i <= n,
            n == delimiters@.len(),
            forall|j: int| 0 <= j < i ==> delimiters@[j] != c,
        decreases n - i,
    {
        let d = delimiters[i];
        if d == c {
            return true;
        }
        i = i + 1;
    }
    false
}

/// Truncate the string at the first occurrence of one delimiter.
pub fn truncate_at_char<'a>(input: &'a str, delimiter: char) -> (r: &'a str)
    ensures
        r@ == truncated_at(input@, seq![delimiter]),
{
    let n = input.unicode_len();
    let mut i: usize = 0;
    proof {
        lemma_first_delim(input@, seq![delimiter]);
        assert(input@.skip(0int) =~= input@);
    }
    loop
        invariant
            i <= n,
            n == input@.len(),
            first_delim(input@, seq![delimiter]) == i + first_delim(
                input@.skip(i as int),
                seq![delimiter],
            ),
        ensures
            i == first_delim(input@, seq![delimiter]),
        decreases n - i,
    {
        if i >= n {
            proof {
                assert(input@.skip(i as int) =~= Seq::<char>::empty());
            }
            break ;
        }
        let c = input.get_char(i);
        proof {
            assert(input@.skip(i as int)[0] == input@[i as int]);
            assert(seq![delimiter][0] == delimiter);
            if input@[i as int] == delimiter {
                assert(seq![delimiter].contains(input@[i as int]));
            }
            if seq![delimiter].contains(input@[i as int]) {
                let w = choose|w: int| 0 <= w < 1 && seq![delimiter][w] == input@[i as int];
                assert(input@[i as int] == delimiter);
            }
        }
        if c == delimiter {
            break ;
        }
        proof {
            assert(input@.skip(i as int).skip(1) =~= input@.skip(i + 1));
        }
        i = i + 1;
    }
    let r = input.substring_char(0, i);
    proof {
        assert(r@ =~= truncated_at(input@, seq![delimiter]));
    }
    r
}

/// A full operation name reduced to its simple form: everything from the
/// first generic-parameter or call-argument suffix on is removed.
pub open spec fn simple_name_of(long: Seq<char>) -> Seq<char> {
    truncated_at(long, seq!['<', '('])
}

/// Remove the generic-parameter and call-argument suffixes from the name.
pub fn remove_prefix(input: String) -> (r: String)
    ensures
        r@ == simple_name_of(input@),
{
    let delimiters: [char; 2] = ['<', '('];
    let r = truncate_at_chars(input, delimiters.as_slice());
    proof {
        assert(delimiters@ =~= seq!['<', '(']);
    }
    r
}

/// The full name that the declarations give an operation id: the last
/// declaration wins, as in a map built by insertion.
pub open spec fn lookup_long_id(decls: Seq<(u64, Seq<char>)>, id: u64) -> Option<Seq<char>>
    decreases decls.len(),
{
    if decls.len() == 0 {
        None
    } else if decls.last().0 == id {
        Some(decls.last().1)
    } else {
        lookup_long_id(decls.drop_last(), id)
    }
}

/// The content of the declarations.
pub open spec fn decls_view(s: Seq<LibfuncDeclaration>) -> Seq<(u64, Seq<char>)> {
    s.map_values(|d: LibfuncDeclaration| (d.id, d.long_id@))
}

/// The simple name of one statement, if it has one: the truncated operation
/// name for an invocation of a declared operation, and a fixed name for a
/// return.
pub open spec fn statement_simple_name(
    decls: Seq<(u64, Seq<char>)>,
    stmt: SierraStatement,
) -> Option<Seq<char>> {
    match stmt {
        SierraStatement::Invocation { libfunc_id } => match lookup_long_id(decls, libfunc_id) {
            Some(long) => Some(simple_name_of(long)),
            None => None,
        },
        SierraStatement::Return => Some("return"@),
    }
}

/// The simplified names of all statements, keyed by statement index, in index
/// order; statements whose operation is not declared are left out.
pub open spec fn names_map_spec(
    decls: Seq<(u64, Seq<char>)>,
    stmts: Seq<SierraStatement>,
) -> Seq<(u64, Seq<char>)>
    decreases stmts.len(),
{
    if stmts.len() == 0 {
        Seq::empty()
    } else {
        let rest = names_map_spec(decls, stmts.drop_last());
        match statement_simple_name(decls, stmts.last()) {
            Some(name) => rest.push(((stmts.len() - 1) as u64, name)),
            None => rest,
        }
    }
}

/// The simple name recorded under a statement index: the first entry with
/// that key, if any.
pub open spec fn lookup_name(s: Seq<(u64, Seq<char>)>, k: u64) -> Option<Seq<char>>
    decreases s.len(),
{
    if s.len() == 0 {
        None
    } else if s[0].0 == k {
        Some(s[0].1)
    } else {
        lookup_name(s.skip(1), k)
    }
}

/// A scan that stops at the first entry with the key computes the lookup.
pub proof fn lemma_lookup_name_at(s: Seq<(u64, Seq<char>)>, k: u64, i: int)
    requires
        0 <= i < s.len(),
        s[i].0 == k,
        forall|j: int| 0 <= j < i ==> s[j].0 != k,
    ensures
        lookup_name(s, k) == Some(s[i].1),
    decreases s.len(),
{
    if i > 0 {
        assert forall|j: int| 0 <= j < i - 1 implies s.skip(1)[j].0 != k by {
            assert(s.skip(1)[j] == s[j + 1]);
        }
        assert(s.skip(1)[i - 1] == s[i]);
        lemma_lookup_name_at(s.skip(1), k, i - 1);
    }
}

/// A key that occurs nowhere has no name.
pub proof fn lemma_lookup_name_none(s: Seq<(u64, Seq<char>)>, k: u64)
    requires
        forall|j: int| 0 <= j < s.len() ==> s[j].0 != k,
    ensures
        lookup_name(s, k) is None,
    decreases s.len(),
{
    if s.len() > 0 {
        assert forall|j: int| 0 <= j < s.skip(1).len() implies s.skip(1)[j].0 != k by {
            assert(s.skip(1)[j] == s[j + 1]);
        }
        lemma_lookup_name_none(s.skip(1), k);
    }
}

/// The simplified operation names of a program's statements, keyed by
/// statement index.
pub struct LibfuncNamesMap {
    pub entries: Vec<(u64, String)>,
}

impl LibfuncNamesMap {
    /// The mathematical content of the entries.
    pub open spec fn abs(&self) -> Seq<(u64, Seq<char>)> {
        self.entries@.map_values(|e: (u64, String)| (e.0, e.1@))
    }

    /// The simple name recorded for one statement index, if any.
    pub fn get(&self, k: u64) -> (r: Option<&String>)
        ensures
            match r {
                Some(name) => lookup_name(self.abs(), k) == Some(name@),
                None => lookup_name(self.abs(), k) is None,
            },
    {
        let n = self.entries.len();
        let mut i: usize = 0;
        while i < n
            invariant
                i <= n,
                n == self.entries@.len(),
                forall|j: int| 0 <= j < i ==> self.abs()[j].0 != k,
            decreases n - i,
        {
            if self.entries[i].0 == k {
                proof {
                    assert(self.abs()[i as int] == (k, self.entries@[i as int].1@));
                    lemma_lookup_name_at(self.abs(), k, i as int);
                }
                return Some(&self.entries[i].1);
            }
            proof {
                assert(self.abs()[i as int].0 == self.entries@[i as int].0);
            }
            i = i + 1;
        }
        proof {
            lemma_lookup_name_none(self.abs(), k);
        }
        None
    }
}

/// Map each statement index to the simplified name of the operation it
/// invokes, leaving out statements whose operation is not declared.
pub fn build_names_map(
    declarations: &Vec<LibfuncDeclaration>,
    statements: &Vec<SierraStatement>,
) -> (r: LibfuncNamesMap)
    requires
        statements@.len() <= u64::MAX,
    ensures
        r.abs() =~= names_map_spec(decls_view(declarations@), statements@),
{
    let n = statements.len();
    let mut entries: Vec<(u64, String)> = Vec::new();
    let mut i: usize = 0;
    proof {
        assert(statements@.take(0int) =~= Seq::<SierraStatement>::empty());
    }
    while i < n
        invariant
            i <= n,
            n == statements@.len(),
            n <= u64::MAX,
            entries@.map_values(|e: (u64, String)| (e.0, e.1@)) =~= names_map_spec(
                decls_view(declarations@),
                statements@.take(i as int),
            ),
        decreases n - i,
    {
        let ghost before = entries@;
        proof {
            assert(statements@.take(i + 1).drop_last() =~= statements@.take(i as int));
            assert(statements@.take(i + 1).last() == statements@[i as int]);
        }
        match &statements[i] {
            SierraStatement::Invocation { libfunc_id } => {
                match find_declaration(declarations, *libfunc_id) {
                    Some(long) => {
                        let simple = remove_prefix(long);
                        entries.push((i as u64, simple));
                    },
                    None => {},
                }
            },
            SierraStatement::Return => {
                entries.push((i as u64, String::from_str("return")));
            },
        }
        proof {
            assert(entries@.map_values(|e: (u64, String)| (e.0, e.1@)) =~= names_map_spec(
                decls_view(declarations@),
                statements@.take(i + 1),
            ));
        }
        i = i + 1;
    }
    proof {
        assert(statements@.take(i as int) =~= statements@);
    }
    LibfuncNamesMap { entries }
}

/// The full name declared for the operation id, the last declaration winning.
fn find_declaration(declarations: &Vec<LibfuncDeclaration>, id: u64) -> (r: Option<String>)
    ensures
        match r {
            Some(long) => lookup_long_id(decls_view(declarations@), id) == Some(long@),
            None => lookup_long_id(decls_view(declarations@), id) is None,
        },
{
    let n = declarations.len();
    let mut i: usize = n;
    proof {
        assert(decls_view(declarations@).take(n as int) =~= decls_view(declarations@));
    }
    loop
        invariant
            i <= n,
            n == declarations@.len(),
            lookup_long_id(decls_view(declarations@), id) == lookup_long_id(
                decls_view(declarations@).take(i as int),
                id,
            ),
        ensures
            lookup_long_id(decls_view(declarations@), id) == lookup_long_id(
                Seq::<(u64, Seq<char>)>::empty(),
                id,
            ),
        decreases i,
    {
        if i == 0 {
            proof {
                assert(decls_view(declarations@).take(0int) =~= Seq::<(u64, Seq<char>)>::empty());
            }
            break ;
        }
        proof {
            assert(decls_view(declarations@).take(i as int).last() == (
                declarations@[i - 1].id,
                declarations@[i - 1].long_id@,
            ));
            assert(decls_view(declarations@).take(i as int).drop_last() =~= decls_view(
                declarations@,
            ).take(i - 1));
        }
        if declarations[i - 1].id == id {
            return Some(declarations[i - 1].long_id.clone());
        }
        i = i - 1;
    }
    None
}

} // verus!
