use vstd::prelude::*;

use crate::ast::{copy_from, lemma_views_of, views_of, Expr, SExpr};
use crate::error::{CompileError, CompileFault};

verus! {

/// An operator of the language. Each word folds a list of two or more
/// arguments into nested pairs and combines each pair with a procedure chosen
/// by the operands' static types.
#[derive(Clone, Copy, Debug, PartialEq, Eq, Structural)]
pub enum Word {
    Add,
    Mul,
}

impl Word {
    /// The name under which the word is written.
    pub open spec fn spec_name(self) -> Seq<char> {
        match self {
            Word::Add => seq!['+'],
            Word::Mul => seq!['*'],
        }
    }

    /// The name, as a string.
    pub fn name(&self) -> (r: String)
        ensures
            r@ == self.spec_name(),
    {
        match self {
            Word::Add => {
                proof {
                    reveal_strlit("+");
                }
                "+".to_owned()
            },
            Word::Mul => {
                proof {
                    reveal_strlit("*");
                }
                "*".to_owned()
            },
        }
    }

    /// Rewrites the argument list before it is compiled; see [`normalize_multiple_args`].
    pub fn normalize(&self, args: &[Expr]) -> (r: Vec<Expr>)
        ensures
            views_of(r@) == normalized(self.spec_name(), views_of(args@)),
    {
        normalize_multiple_args(self, args)
    }
}

/// The pairwise fold of an argument list: while more than two arguments
/// remain, the last two are replaced by one list that applies `name` to them.
pub open spec fn normalized(name: Seq<char>, args: Seq<SExpr>) -> Seq<SExpr>
    decreases args.len(),
{
    if args.len() <= 2 {
        args
    } else {
        let n = args.len();
        normalized(
            name,
            args.take(n - 2).push(SExpr::List(seq![SExpr::Atom(name), args[n - 2], args[n - 1]])),
        )
    }
}

/// Folds `(w a b c d)` into `(w a (w b (w c d)))`: the rightmost pair is
/// grouped first, until two arguments remain.
pub fn normalize_multiple_args(w: &Word, args: &[Expr]) -> (r: Vec<Expr>)
    ensures
        views_of(r@) == normalized(w.spec_name(), views_of(args@)),
{
    let ghost name = w.spec_name();
    let mut v = copy_from(args, 0);
    proof {
        assert(views_of(args@).skip(0) =~= views_of(args@));
    }
    while v.len() > 2
        invariant
            normalized(name, views_of(v@)) == normalized(name, views_of(args@)),
            name == w.spec_name(),
        decreases v@.len(),
    {
        let ghost s = views_of(v@);
        let ghost n = v@.len() as int;
        proof {
            lemma_views_of(v@);
        }
        let b = v.pop().unwrap();
        let a = v.pop().unwrap();
        let items = vec![Expr::Atom(w.name()), a, b];
        proof {
            lemma_views_of(items@);
            assert(views_of(items@) =~= seq![SExpr::Atom(name), s[n - 2], s[n - 1]]);
            lemma_views_of(v@);
            assert(views_of(v@) =~= s.take(n - 2));
        }
        let ghost rest = v@;
        let node = Expr::List(items);
        assert(node@ == SExpr::List(seq![SExpr::Atom(name), s[n - 2], s[n - 1]]));
        v.push(node);
        proof {
            assert(v@.drop_last() =~= rest);
            assert(views_of(v@) == views_of(rest).push(node@));
            assert(views_of(v@) =~= s.take(n - 2).push(
                SExpr::List(seq![SExpr::Atom(name), s[n - 2], s[n - 1]]),
            ));
        }
    }
    proof {
        lemma_views_of(v@);
    }
    v
}

/// The first word of `words` written `name`, if any.
pub open spec fn find_word(words: Seq<Word>, name: Seq<char>) -> Option<Word>
    decreases words.len(),
{
    if words.len() == 0 {
        None
    } else {
        match find_word(words.drop_last(), name) {
            Some(w) => Some(w),
            None => if words.last().spec_name() == name {
                Some(words.last())
            } else {
                None
            },
        }
    }
}

/// The table of words by name. No two registered words share a name.
pub struct Registry {
    words: Vec<Word>,
}

impl View for Registry {
    type V = Seq<Word>;

    closed spec fn view(&self) -> Seq<Word> {
        self.words@
    }
}

impl Registry {
    /// No two words of the table share a name.
    pub open spec fn wf(&self) -> bool {
        forall|i: int, j: int|
            0 <= i < j < self@.len() ==> #[trigger] self@[i].spec_name() != #[trigger] self@[j].spec_name()
    }

    /// A table with no words.
    pub fn new() -> (r: Registry)
        ensures
            r@ == Seq::<Word>::empty(),
            r.wf(),
    {
        Registry { words: Vec::new() }
    }

    /// A table with the built-in words, `+` and `*`.
    pub fn with_builtins() -> (r: Registry)
        ensures
            r@ == seq![Word::Add, Word::Mul],
            r.wf(),
    {
        assert(Word::Add.spec_name()[0] != Word::Mul.spec_name()[0]);
        Registry { words: vec![Word::Add, Word::Mul] }
    }

    /// Adds `w` under its name; a name that is already taken is refused and
    /// the table is left as it was.
    pub fn register(&mut self, w: Word) -> (r: Result<(), CompileError>)
        requires
            old(self).wf(),
        ensures
            final(self).wf(),
            find_word(old(self)@, w.spec_name()) is None ==> r is Ok && final(self)@ == old(
                self,
            )@.push(w),
            find_word(old(self)@, w.spec_name()) is Some ==> r is Err && r->Err_0@
                == CompileFault::RegistrationConflict(w.spec_name()) && final(self)@ == old(self)@,
    {
        let name = w.name();
        if lookup(self, name.as_str()).is_some() {
            return Err(CompileError::RegistrationConflict { name });
        }
        proof {
            lemma_find_word_none(self@, w.spec_name());
        }
        self.words.push(w);
        Ok(())
    }
}

/// Where no word is found under `name`, no word of the table carries it.
pub proof fn lemma_find_word_none(words: Seq<Word>, name: Seq<char>)
    requires
        find_word(words, name) is None,
    ensures
        forall|i: int| 0 <= i < words.len() ==> #[trigger] words[i].spec_name() != name,
    decreases words.len(),
{
    if words.len() > 0 {
        lemma_find_word_none(words.drop_last(), name);
        assert forall|i: int| 0 <= i < words.len() implies #[trigger] words[i].spec_name() != name by {
            if i < words.len() - 1 {
                assert(words.drop_last()[i] == words[i]);
            }
        }
    }
}

/// The word of `registry` written `name`, if any.
pub fn lookup(registry: &Registry, name: &str) -> (r: Option<Word>)
    ensures
        r == find_word(registry@, name@),
{
    let wanted = name.to_owned();
    let mut i: usize = 0;
    while i < registry.words.len()
        invariant
            i <= registry@.len(),
            wanted@ == name@,
            find_word(registry@.take(i as int), name@) is None,
        decreases registry@.len() - i,
    {
        proof {
            assert(registry@.take(i as int + 1).drop_last() =~= registry@.take(i as int));
        }
        let w = registry.words[i];
        if w.name() == wanted {
            proof {
                lemma_find_word_extends(registry@, i as int + 1, name@);
            }
            return Some(w);
        }
        i = i + 1;
    }
    proof {
        assert(registry@.take(registry@.len() as int) =~= registry@);
    }
    None
}

/// A word found in a prefix of `words` is the word found in all of `words`.
pub proof fn lemma_find_word_extends(words: Seq<Word>, k: int, name: Seq<char>)
    requires
        0 <= k <= words.len(),
        find_word(words.take(k), name) is Some,
    ensures
        find_word(words, name) == find_word(words.take(k), name),
    decreases words.len(),
{
    if k == words.len() {
        assert(words.take(k) =~= words);
    } else {
        assert(words.drop_last().take(k) =~= words.take(k));
        lemma_find_word_extends(words.drop_last(), k, name);
    }
}

} // verus!
