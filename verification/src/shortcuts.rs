//! The shortcut registry: a fixed set of global key combinations, each bound
//! one-to-one to a named application event.
//!
//! A binding is written as `'+'`-separated tokens, every token but the last
//! naming a modifier (`Ctrl`/`Control`, `Alt`, `Shift`, `Super`/`Cmd`/`Meta`)
//! and the last being the key itself: an ASCII digit or upper-case letter,
//! as in `"Ctrl+Alt+Shift+W"`. A malformed binding is a fatal setup error;
//! there is no silent fallback.

use vstd::prelude::*;

use crate::events::{AppEvent, EventChannel};

verus! {

/// A parsed key combination: which modifiers are held, and the main key.
#[derive(Clone, Copy, PartialEq, Eq, Structural, Debug)]
pub struct Shortcut {
    pub ctrl: bool,
    pub alt: bool,
    pub shift: bool,
    pub meta: bool,
    /// The non-modifier key: an ASCII digit or upper-case letter.
    pub key: char,
}

/// Why startup registration fails.
#[derive(Clone, Copy, PartialEq, Eq, Structural, Debug)]
pub enum SetupError {
    /// The binding text does not follow the key-combination grammar.
    MalformedShortcut,
    /// The key combination is already claimed.
    ShortcutTaken,
}

/// The tokens of a binding: the text split at every `'+'`. Splitting the
/// empty text yields one empty token, so there is always at least one token.
pub open spec fn split_tokens(s: Seq<char>) -> Seq<Seq<char>>
    decreases s.len(),
{
    if s.len() == 0 {
        seq![Seq::<char>::empty()]
    } else if s[0] == '+' {
        seq![Seq::<char>::empty()] + split_tokens(s.skip(1))
    } else {
        let rest = split_tokens(s.skip(1));
        seq![seq![s[0]] + rest[0]] + rest.skip(1)
    }
}

pub proof fn lemma_split_tokens_nonempty(s: Seq<char>)
    ensures
        split_tokens(s).len() >= 1,
    decreases s.len(),
{
    if s.len() > 0 {
        lemma_split_tokens_nonempty(s.skip(1));
    }
}

/// Token naming the control modifier.
pub open spec fn is_ctrl_token(t: Seq<char>) -> bool {
    t == "Ctrl"@ || t == "Control"@
}

/// Token naming the alt modifier.
pub open spec fn is_alt_token(t: Seq<char>) -> bool {
    t == "Alt"@
}

/// Token naming the shift modifier.
pub open spec fn is_shift_token(t: Seq<char>) -> bool {
    t == "Shift"@
}

/// Token naming the platform command/super modifier.
pub open spec fn is_meta_token(t: Seq<char>) -> bool {
    t == "Super"@ || t == "Cmd"@ || t == "Meta"@
}

pub open spec fn is_modifier_token(t: Seq<char>) -> bool {
    is_ctrl_token(t) || is_alt_token(t) || is_shift_token(t) || is_meta_token(t)
}

/// A key the grammar accepts: an ASCII digit or upper-case letter.
pub open spec fn is_key_char(c: char) -> bool {
    (('A' as u32) <= (c as u32) && (c as u32) <= ('Z' as u32)) || (('0' as u32) <= (c as u32) && (
    c as u32) <= ('9' as u32))
}

/// The final token: exactly one accepted key character.
pub open spec fn is_key_token(t: Seq<char>) -> bool {
    t.len() == 1 && is_key_char(t[0])
}

/// A well-formed binding: every token before the last names a modifier, and
/// the last is a key token. Modifiers may repeat; repetition is idempotent.
pub open spec fn valid_binding(s: Seq<char>) -> bool {
    let toks = split_tokens(s);
    is_key_token(toks.last()) && (forall|i: int|
        0 <= i < toks.len() - 1 ==> is_modifier_token(#[trigger] toks[i]))
}

/// The shortcut a well-formed binding denotes.
pub open spec fn shortcut_of(s: Seq<char>) -> Shortcut {
    let toks = split_tokens(s);
    Shortcut {
        ctrl: exists|i: int| 0 <= i < toks.len() - 1 && is_ctrl_token(#[trigger] toks[i]),
        alt: exists|i: int| 0 <= i < toks.len() - 1 && is_alt_token(#[trigger] toks[i]),
        shift: exists|i: int| 0 <= i < toks.len() - 1 && is_shift_token(#[trigger] toks[i]),
        meta: exists|i: int| 0 <= i < toks.len() - 1 && is_meta_token(#[trigger] toks[i]),
        key: toks.last()[0],
    }
}

/// The combination `Ctrl+Alt+Shift+key`: the shape of every binding this
/// application registers at startup.
pub open spec fn ctrl_alt_shift(key: char) -> Shortcut {
    Shortcut { ctrl: true, alt: true, shift: true, meta: false, key }
}

/// A `'+'`-free text splits into itself as the only token.
proof fn lemma_split_tokens_single(t: Seq<char>)
    requires
        forall|i: int| 0 <= i < t.len() ==> t[i] != '+',
    ensures
        split_tokens(t) =~= seq![t],
    decreases t.len(),
{
    if t.len() == 0 {
        assert(t =~= Seq::<char>::empty());
    } else {
        assert(forall|i: int| 0 <= i < t.skip(1).len() ==> #[trigger] t.skip(1)[i] != '+');
        lemma_split_tokens_single(t.skip(1));
        assert(seq![t[0]] + t.skip(1) =~= t);
    }
}

/// Splitting at the first `'+'` after a `'+'`-free prefix peels off that
/// prefix as one token.
proof fn lemma_split_tokens_prefix(a: Seq<char>, b: Seq<char>)
    requires
        forall|i: int| 0 <= i < a.len() ==> a[i] != '+',
    ensures
        split_tokens(a + seq!['+'] + b) =~= seq![a] + split_tokens(b),
    decreases a.len(),
{
    let s = a + seq!['+'] + b;
    lemma_split_tokens_nonempty(b);
    if a.len() == 0 {
        assert(s[0] == '+');
        assert(s.skip(1) =~= b);
        assert(Seq::<char>::empty() =~= a);
    } else {
        assert(s[0] == a[0]);
        assert(s.skip(1) =~= a.skip(1) + seq!['+'] + b);
        assert(forall|i: int| 0 <= i < a.skip(1).len() ==> #[trigger] a.skip(1)[i] != '+');
        lemma_split_tokens_prefix(a.skip(1), b);
        lemma_split_tokens_nonempty(a.skip(1) + seq!['+'] + b);
        let rest = split_tokens(s.skip(1));
        assert(rest =~= seq![a.skip(1)] + split_tokens(b));
        assert(rest[0] == a.skip(1));
        assert(seq![a[0]] + a.skip(1) =~= a);
        assert(rest.skip(1) =~= split_tokens(b));
    }
}

/// The bindings this application registers at startup are well formed and
/// denote `Ctrl+Alt+Shift` with the keys `W`, `P` and `B`.
pub proof fn lemma_standard_bindings()
    ensures
        valid_binding("Ctrl+Alt+Shift+W"@) && shortcut_of("Ctrl+Alt+Shift+W"@) == ctrl_alt_shift(
            'W',
        ),
        valid_binding("Ctrl+Alt+Shift+P"@) && shortcut_of("Ctrl+Alt+Shift+P"@) == ctrl_alt_shift(
            'P',
        ),
        valid_binding("Ctrl+Alt+Shift+B"@) && shortcut_of("Ctrl+Alt+Shift+B"@) == ctrl_alt_shift(
            'B',
        ),
{
    reveal_strlit("Ctrl+Alt+Shift+W");
    reveal_strlit("Ctrl+Alt+Shift+P");
    reveal_strlit("Ctrl+Alt+Shift+B");
    reveal_strlit("Ctrl");
    reveal_strlit("Alt");
    reveal_strlit("Shift");
    reveal_strlit("W");
    reveal_strlit("P");
    reveal_strlit("B");
    lemma_modifier_tokens_distinct();
    assert(forall|i: int| 0 <= i < "Ctrl"@.len() ==> "Ctrl"@[i] != '+');
    assert(forall|i: int| 0 <= i < "Alt"@.len() ==> "Alt"@[i] != '+');
    assert(forall|i: int| 0 <= i < "Shift"@.len() ==> "Shift"@[i] != '+');
    lemma_standard_binding_shape("Ctrl+Alt+Shift+W"@, "W"@, 'W');
    lemma_standard_binding_shape("Ctrl+Alt+Shift+P"@, "P"@, 'P');
    lemma_standard_binding_shape("Ctrl+Alt+Shift+B"@, "B"@, 'B');
}

/// A binding of the shape `Ctrl+Alt+Shift+<key>` is well formed and denotes
/// exactly those three modifiers with that key.
proof fn lemma_standard_binding_shape(s: Seq<char>, kt: Seq<char>, key: char)
    requires
        s =~= "Ctrl"@ + seq!['+'] + ("Alt"@ + seq!['+'] + ("Shift"@ + seq!['+'] + kt)),
        kt =~= seq![key],
        is_key_char(key),
        forall|i: int| 0 <= i < "Ctrl"@.len() ==> "Ctrl"@[i] != '+',
        forall|i: int| 0 <= i < "Alt"@.len() ==> "Alt"@[i] != '+',
        forall|i: int| 0 <= i < "Shift"@.len() ==> "Shift"@[i] != '+',
        key != '+',
        is_ctrl_token("Ctrl"@) && !is_alt_token("Ctrl"@) && !is_shift_token("Ctrl"@)
            && !is_meta_token("Ctrl"@),
        is_alt_token("Alt"@) && !is_ctrl_token("Alt"@) && !is_shift_token("Alt"@) && !is_meta_token(
            "Alt"@,
        ),
        is_shift_token("Shift"@) && !is_ctrl_token("Shift"@) && !is_alt_token("Shift"@)
            && !is_meta_token("Shift"@),
    ensures
        valid_binding(s),
        shortcut_of(s) == ctrl_alt_shift(key),
{
    assert(forall|i: int| 0 <= i < kt.len() ==> kt[i] != '+');
    lemma_split_tokens_single(kt);
    lemma_split_tokens_prefix("Shift"@, kt);
    lemma_split_tokens_prefix("Alt"@, "Shift"@ + seq!['+'] + kt);
    lemma_split_tokens_prefix("Ctrl"@, "Alt"@ + seq!['+'] + ("Shift"@ + seq!['+'] + kt));
    let toks = split_tokens(s);
    assert(toks =~= seq!["Ctrl"@, "Alt"@, "Shift"@, kt]);
    assert(toks.last() == kt);
    assert(is_key_token(kt));
    assert(forall|i: int| 0 <= i < toks.len() - 1 ==> is_modifier_token(#[trigger] toks[i]));
    let sc = shortcut_of(s);
    assert(is_ctrl_token(toks[0]) && is_alt_token(toks[1]) && is_shift_token(toks[2]));
    assert(sc.ctrl && sc.alt && sc.shift);
    assert(forall|i: int| 0 <= i < toks.len() - 1 ==> !is_meta_token(#[trigger] toks[i]));
    assert(!sc.meta);
    assert(sc.key == key);
}

/// Split the binding text at every `'+'`.
fn tokenize(s: &str) -> (toks: Vec<Vec<char>>)
    ensures
        toks@.len() == split_tokens(s@).len(),
        forall|i: int| 0 <= i < toks@.len() ==> #[trigger] toks@[i]@ == split_tokens(s@)[i],
{
    let n = s.unicode_len();
    let mut finished: Vec<Vec<char>> = Vec::new();
    let mut cur: Vec<char> = Vec::new();
    let mut i: usize = 0;
    proof {
        assert(s@.skip(0) =~= s@);
        lemma_split_tokens_nonempty(s@);
        assert(Seq::<char>::empty() + split_tokens(s@)[0] =~= split_tokens(s@)[0]);
    }
    while i < n
        invariant
            n == s@.len(),
            i <= n,
            split_tokens(s@).len() == finished@.len() + split_tokens(s@.skip(i as int)).len(),
            forall|j: int|
                0 <= j < finished@.len() ==> #[trigger] finished@[j]@ == split_tokens(s@)[j],
            cur@ + split_tokens(s@.skip(i as int))[0] == split_tokens(s@)[finished@.len() as int],
            forall|j: int|
                1 <= j < split_tokens(s@.skip(i as int)).len() ==> #[trigger] split_tokens(
                    s@.skip(i as int),
                )[j] == split_tokens(s@)[finished@.len() + j],
        decreases n - i,
    {
        let ghost suffix = s@.skip(i as int);
        let ghost rest = split_tokens(s@.skip(i as int + 1));
        proof {
            lemma_split_tokens_nonempty(s@.skip(i as int + 1));
            assert(suffix.len() == n - i);
            assert(suffix[0] == s@[i as int]);
            assert(suffix.skip(1) =~= s@.skip(i as int + 1));
        }
        let c = s.get_char(i);
        if c == '+' {
            proof {
                assert(split_tokens(suffix) =~= seq![Seq::<char>::empty()] + rest);
                assert(split_tokens(suffix)[0] =~= Seq::<char>::empty());
                assert(cur@ + Seq::<char>::empty() =~= cur@);
                assert(Seq::<char>::empty() + rest[0] =~= rest[0]);
                assert(forall|j: int|
                    0 <= j < rest.len() ==> #[trigger] rest[j] == split_tokens(suffix)[j + 1]);
            }
            finished.push(cur);
            cur = Vec::new();
        } else {
            proof {
                assert(split_tokens(suffix) =~= seq![seq![suffix[0]] + rest[0]] + rest.skip(1));
                assert(cur@.push(c) + rest[0] =~= cur@ + (seq![c] + rest[0]));
                assert(seq![c] + rest[0] =~= split_tokens(suffix)[0]);
                assert(forall|j: int|
                    1 <= j < rest.len() ==> #[trigger] rest[j] == split_tokens(suffix)[j]);
            }
            cur.push(c);
        }
        i += 1;
    }
    proof {
        assert(s@.skip(n as int) =~= Seq::<char>::empty());
        assert(split_tokens(s@.skip(n as int)) =~= seq![Seq::<char>::empty()]);
        assert(cur@ + Seq::<char>::empty() =~= cur@);
    }
    finished.push(cur);
    finished
}

/// True when the token spells exactly the given literal.
fn token_equals(t: &Vec<char>, lit: &str) -> (b: bool)
    ensures
        b == (t@ == lit@),
{
    let n = lit.unicode_len();
    if t.len() != n {
        return false;
    }
    let mut i: usize = 0;
    while i < n
        invariant
            n == lit@.len(),
            t@.len() == n,
            i <= n,
            forall|j: int| 0 <= j < i ==> t@[j] == lit@[j],
        decreases n - i,
    {
        if t[i] != lit.get_char(i) {
            return false;
        }
        i += 1;
    }
    proof {
        assert(t@ =~= lit@);
    }
    true
}

enum Modifier {
    Ctrl,
    Alt,
    Shift,
    Meta,
}

/// No token names two different modifiers.
proof fn lemma_modifier_tokens_distinct()
    ensures
        "Ctrl"@ != "Alt"@,
        "Ctrl"@ != "Shift"@,
        "Ctrl"@ != "Super"@,
        "Ctrl"@ != "Cmd"@,
        "Ctrl"@ != "Meta"@,
        "Control"@ != "Alt"@,
        "Control"@ != "Shift"@,
        "Control"@ != "Super"@,
        "Control"@ != "Cmd"@,
        "Control"@ != "Meta"@,
        "Alt"@ != "Shift"@,
        "Alt"@ != "Super"@,
        "Alt"@ != "Cmd"@,
        "Alt"@ != "Meta"@,
        "Shift"@ != "Super"@,
        "Shift"@ != "Cmd"@,
        "Shift"@ != "Meta"@,
{
    reveal_strlit("Ctrl");
    reveal_strlit("Control");
    reveal_strlit("Alt");
    reveal_strlit("Shift");
    reveal_strlit("Super");
    reveal_strlit("Cmd");
    reveal_strlit("Meta");
    assert("Ctrl"@.len() == 4);
    assert("Control"@.len() == 7);
    assert("Alt"@.len() == 3);
    assert("Shift"@.len() == 5);
    assert("Super"@.len() == 5);
    assert("Cmd"@.len() == 3);
    assert("Meta"@.len() == 4);
    assert("Alt"@[0] == 'A' && "Cmd"@[0] == 'C');
    assert("Ctrl"@[0] == 'C' && "Meta"@[0] == 'M');
    assert("Shift"@[1] == 'h' && "Super"@[1] == 'u');
}

/// Which modifier a token names, if any.
fn classify_modifier(t: &Vec<char>) -> (m: Option<Modifier>)
    ensures
        m matches Some(Modifier::Ctrl) <==> is_ctrl_token(t@),
        m matches Some(Modifier::Alt) <==> is_alt_token(t@),
        m matches Some(Modifier::Shift) <==> is_shift_token(t@),
        m matches Some(Modifier::Meta) <==> is_meta_token(t@),
        m is None <==> !is_modifier_token(t@),
{
    proof {
        lemma_modifier_tokens_distinct();
    }
    if token_equals(t, "Ctrl") || token_equals(t, "Control") {
        Some(Modifier::Ctrl)
    } else if token_equals(t, "Alt") {
        Some(Modifier::Alt)
    } else if token_equals(t, "Shift") {
        Some(Modifier::Shift)
    } else if token_equals(t, "Super") || token_equals(t, "Cmd") || token_equals(t, "Meta") {
        Some(Modifier::Meta)
    } else {
        None
    }
}

/// The key a one-character token carries, if the grammar accepts it.
fn classify_key(t: &Vec<char>) -> (k: Option<char>)
    ensures
        k matches Some(c) ==> is_key_token(t@) && c == t@[0],
        k is None ==> !is_key_token(t@),
{
    if t.len() == 1 {
        let c = t[0];
        let u = c as u32;
        if (('A' as u32) <= u && u <= ('Z' as u32)) || (('0' as u32) <= u && u <= ('9' as u32)) {
            Some(c)
        } else {
            None
        }
    } else {
        None
    }
}

/// Parse a key-combination binding. Exactly the well-formed bindings parse;
/// anything else is a malformed-shortcut setup error.
pub fn parse_shortcut(s: &str) -> (r: Result<Shortcut, SetupError>)
    ensures
        valid_binding(s@) ==> r == Ok::<Shortcut, SetupError>(shortcut_of(s@)),
        !valid_binding(s@) ==> r == Err::<Shortcut, SetupError>(SetupError::MalformedShortcut),
{
    let toks = tokenize(s);
    proof {
        lemma_split_tokens_nonempty(s@);
    }
    let n = toks.len();
    let mut ctrl = false;
    let mut alt = false;
    let mut shift = false;
    let mut meta = false;
    let mut i: usize = 0;
    while i < n - 1
        invariant
            n == toks@.len(),
            n == split_tokens(s@).len(),
            n >= 1,
            i <= n - 1,
            forall|j: int| 0 <= j < toks@.len() ==> #[trigger] toks@[j]@ == split_tokens(s@)[j],
            ctrl == exists|j: int| 0 <= j < i && is_ctrl_token(#[trigger] split_tokens(s@)[j]),
            alt == exists|j: int| 0 <= j < i && is_alt_token(#[trigger] split_tokens(s@)[j]),
            shift == exists|j: int| 0 <= j < i && is_shift_token(#[trigger] split_tokens(s@)[j]),
            meta == exists|j: int| 0 <= j < i && is_meta_token(#[trigger] split_tokens(s@)[j]),
            forall|j: int| 0 <= j < i ==> is_modifier_token(#[trigger] split_tokens(s@)[j]),
        decreases n - 1 - i,
    {
        match classify_modifier(&toks[i]) {
            Some(Modifier::Ctrl) => {
                ctrl = true;
            },
            Some(Modifier::Alt) => {
                alt = true;
            },
            Some(Modifier::Shift) => {
                shift = true;
            },
            Some(Modifier::Meta) => {
                meta = true;
            },
            None => {
                return Err(SetupError::MalformedShortcut);
            },
        }
        i += 1;
    }
    proof {
        assert(split_tokens(s@).last() == split_tokens(s@)[n - 1]);
    }
    match classify_key(&toks[n - 1]) {
        Some(key) => Ok(Shortcut { ctrl, alt, shift, meta, key }),
        None => Err(SetupError::MalformedShortcut),
    }
}

/// First-match lookup of a combination among recorded bindings.
pub open spec fn spec_lookup(bindings: Seq<(Shortcut, AppEvent)>, sc: Shortcut) -> Option<AppEvent>
    decreases bindings.len(),
{
    if bindings.len() == 0 {
        None
    } else if bindings[0].0 == sc {
        Some(bindings[0].1)
    } else {
        spec_lookup(bindings.skip(1), sc)
    }
}

pub proof fn lemma_lookup_none_iff(bindings: Seq<(Shortcut, AppEvent)>, sc: Shortcut)
    ensures
        spec_lookup(bindings, sc) is None <==> (forall|i: int|
            0 <= i < bindings.len() ==> (#[trigger] bindings[i]).0 != sc),
    decreases bindings.len(),
{
    if bindings.len() > 0 {
        lemma_lookup_none_iff(bindings.skip(1), sc);
        if spec_lookup(bindings, sc) is None {
            assert forall|i: int| 0 <= i < bindings.len() implies (#[trigger] bindings[i]).0
                != sc by {
                if i > 0 {
                    assert(bindings.skip(1)[i - 1] == bindings[i]);
                }
            }
        } else {
            if bindings[0].0 != sc {
                assert(!(forall|j: int|
                    0 <= j < bindings.skip(1).len() ==> (#[trigger] bindings.skip(1)[j]).0 != sc));
                let j = choose|j: int|
                    0 <= j < bindings.skip(1).len() && (#[trigger] bindings.skip(1)[j]).0 == sc;
                assert(bindings[j + 1].0 == sc);
            }
        }
    }
}

/// Appending a binding leaves earlier bindings in charge: lookup still
/// prefers the first match.
proof fn lemma_lookup_push(
    bindings: Seq<(Shortcut, AppEvent)>,
    p: (Shortcut, AppEvent),
    sc: Shortcut,
)
    ensures
        spec_lookup(bindings.push(p), sc) == (match spec_lookup(bindings, sc) {
            Some(e) => Some(e),
            None => (if p.0 == sc {
                Some(p.1)
            } else {
                None
            }),
        }),
    decreases bindings.len(),
{
    if bindings.len() == 0 {
        assert(bindings.push(p)[0] == p);
        assert(bindings.push(p).skip(1) =~= Seq::<(Shortcut, AppEvent)>::empty());
        assert(spec_lookup(Seq::<(Shortcut, AppEvent)>::empty(), sc) is None);
        assert(spec_lookup(bindings.push(p).skip(1), sc) is None);
    } else {
        assert(bindings.push(p)[0] == bindings[0]);
        assert(bindings.push(p).skip(1) =~= bindings.skip(1).push(p));
        lemma_lookup_push(bindings.skip(1), p, sc);
        assert(spec_lookup(bindings.push(p).skip(1), sc) == spec_lookup(
            bindings.skip(1).push(p),
            sc,
        ));
    }
}

/// Binds a fixed set of key combinations to application events, one-to-one.
/// Bindings are fixed at startup: there is no re-binding at runtime.
pub struct ShortcutRegistry {
    bindings: Vec<(Shortcut, AppEvent)>,
}

impl ShortcutRegistry {
    /// The recorded bindings, in registration order.
    pub closed spec fn bindings_seq(self) -> Seq<(Shortcut, AppEvent)> {
        self.bindings@
    }

    /// Each combination is claimed at most once.
    pub closed spec fn wf(self) -> bool {
        forall|i: int, j: int|
            0 <= i < j < self.bindings@.len() ==> (#[trigger] self.bindings@[i]).0 != (
            #[trigger] self.bindings@[j]).0
    }

    /// The event bound to a combination, if any.
    pub closed spec fn binding_for(self, sc: Shortcut) -> Option<AppEvent> {
        spec_lookup(self.bindings@, sc)
    }

    /// An empty registry.
    pub fn new() -> (r: Self)
        ensures
            r.wf(),
            r.bindings_seq() == Seq::<(Shortcut, AppEvent)>::empty(),
    {
        ShortcutRegistry { bindings: Vec::new() }
    }

    /// How many bindings are recorded.
    pub fn binding_count(&self) -> (n: usize)
        ensures
            n == self.bindings_seq().len(),
    {
        self.bindings.len()
    }

    /// The event bound to a fired combination.
    pub fn lookup(&self, pressed: Shortcut) -> (r: Option<AppEvent>)
        ensures
            r == self.binding_for(pressed),
    {
        let n = self.bindings.len();
        let mut i: usize = 0;
        proof {
            assert(self.bindings@.skip(0) =~= self.bindings@);
        }
        while i < n
            invariant
                n == self.bindings@.len(),
                i <= n,
                spec_lookup(self.bindings@.skip(i as int), pressed) == spec_lookup(
                    self.bindings@,
                    pressed,
                ),
            decreases n - i,
        {
            proof {
                assert(self.bindings@.skip(i as int)[0] == self.bindings@[i as int]);
                assert(self.bindings@.skip(i as int).skip(1) =~= self.bindings@.skip(i as int + 1));
            }
            let (sc, ev) = self.bindings[i];
            if sc == pressed {
                return Some(ev);
            }
            i += 1;
        }
        proof {
            assert(self.bindings@.skip(n as int) =~= Seq::<(Shortcut, AppEvent)>::empty());
        }
        None
    }

    /// Parse a binding and claim it. Fails — a fatal setup error for the
    /// caller — exactly when the text is malformed or the combination is
    /// already claimed; on success the binding is recorded.
    pub fn register(&mut self, binding: &str, event: AppEvent) -> (r: Result<(), SetupError>)
        requires
            old(self).wf(),
        ensures
            final(self).wf(),
            !valid_binding(binding@) ==> r == Err::<(), SetupError>(SetupError::MalformedShortcut)
                && *final(self) == *old(self),
            valid_binding(binding@) && old(self).binding_for(shortcut_of(binding@)) is Some ==> r
                == Err::<(), SetupError>(SetupError::ShortcutTaken) && *final(self) == *old(self),
            valid_binding(binding@) && old(self).binding_for(shortcut_of(binding@)) is None ==> r
                == Ok::<(), SetupError>(()) && final(self).bindings_seq() == old(
                self,
            ).bindings_seq().push((shortcut_of(binding@), event)),
    {
        match parse_shortcut(binding) {
            Err(e) => Err(e),
            Ok(sc) => {
                match self.lookup(sc) {
                    Some(_) => Err(SetupError::ShortcutTaken),
                    None => {
                        proof {
                            lemma_lookup_none_iff(self.bindings@, sc);
                        }
                        self.bindings.push((sc, event));
                        Ok(())
                    },
                }
            },
        }
    }

    /// Dispatch one firing of a key combination: when the combination is
    /// bound, its event is emitted on the channel — delivered exactly once
    /// to an attached listener, not at all when none listens. An unbound
    /// combination delivers nothing.
    pub fn fire(&self, pressed: Shortcut, channel: &mut EventChannel) -> (r: Option<AppEvent>)
        ensures
            r == self.binding_for(pressed),
            final(channel).listening() == old(channel).listening(),
            final(channel).log() == (match self.binding_for(pressed) {
                Some(e) => (if old(channel).listening() {
                    old(channel).log().push(e)
                } else {
                    old(channel).log()
                }),
                None => old(channel).log(),
            }),
            final(channel).log().len() == old(channel).log().len() + (if self.binding_for(pressed)
                is Some && old(channel).listening() {
                1int
            } else {
                0int
            }),
    {
        match self.lookup(pressed) {
            Some(ev) => {
                channel.emit(ev);
                Some(ev)
            },
            None => None,
        }
    }
}

/// The registry as startup leaves it: exactly three bindings, each mapped
/// one-to-one to a distinct event. Registration cannot fail: the bindings
/// are well formed and pairwise distinct.
pub fn standard_registry() -> (r: ShortcutRegistry)
    ensures
        r.wf(),
        r.bindings_seq() =~= seq![
            (ctrl_alt_shift('W'), AppEvent::StartWork),
            (ctrl_alt_shift('P'), AppEvent::Pause),
            (ctrl_alt_shift('B'), AppEvent::StartBreak),
        ],
        r.binding_for(ctrl_alt_shift('W')) == Some(AppEvent::StartWork),
        r.binding_for(ctrl_alt_shift('P')) == Some(AppEvent::Pause),
        r.binding_for(ctrl_alt_shift('B')) == Some(AppEvent::StartBreak),
{
    proof {
        lemma_standard_bindings();
    }
    let mut r = ShortcutRegistry::new();
    let ghost e0 = Seq::<(Shortcut, AppEvent)>::empty();
    let ghost wp = (ctrl_alt_shift('W'), AppEvent::StartWork);
    let ghost pp = (ctrl_alt_shift('P'), AppEvent::Pause);
    let ghost bp = (ctrl_alt_shift('B'), AppEvent::StartBreak);
    proof {
        assert(spec_lookup(e0, ctrl_alt_shift('W')) is None);
    }
    let _ = r.register("Ctrl+Alt+Shift+W", AppEvent::StartWork);
    proof {
        assert(r.bindings_seq() == e0.push(wp));
        lemma_lookup_push(e0, wp, ctrl_alt_shift('P'));
        assert(spec_lookup(e0, ctrl_alt_shift('P')) is None);
    }
    let _ = r.register("Ctrl+Alt+Shift+P", AppEvent::Pause);
    proof {
        assert(r.bindings_seq() == e0.push(wp).push(pp));
        lemma_lookup_push(e0, wp, ctrl_alt_shift('B'));
        lemma_lookup_push(e0.push(wp), pp, ctrl_alt_shift('B'));
        assert(spec_lookup(e0, ctrl_alt_shift('B')) is None);
    }
    let _ = r.register("Ctrl+Alt+Shift+B", AppEvent::StartBreak);
    proof {
        assert(r.bindings_seq() == e0.push(wp).push(pp).push(bp));
        assert(r.bindings_seq() =~= seq![wp, pp, bp]);
        lemma_lookup_push(e0, wp, ctrl_alt_shift('W'));
        lemma_lookup_push(e0.push(wp), pp, ctrl_alt_shift('W'));
        lemma_lookup_push(e0.push(wp).push(pp), bp, ctrl_alt_shift('W'));
        lemma_lookup_push(e0.push(wp), pp, ctrl_alt_shift('P'));
        lemma_lookup_push(e0.push(wp).push(pp), bp, ctrl_alt_shift('P'));
        lemma_lookup_push(e0.push(wp).push(pp), bp, ctrl_alt_shift('B'));
    }
    r
}

} // verus!
