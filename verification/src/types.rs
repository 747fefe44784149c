//! The runtime value model: a tagged union copied by value on every
//! assignment and argument pass, never shared.
//!
//! The signature feature is the five-valued status type `VBit`: a level in
//! `0 ..= 4` (0 = off, 1 = on, 2 = loading, 3 = error, 4 = unknown) paired
//! with a message.  Status values stand in for booleans, errors and pending
//! states throughout the language.

use vstd::prelude::*;

verus! {

broadcast use vstd::std_specs::vec::group_vec_axioms, vstd::seq::group_seq_axioms;

/// Spec-level picture of a runtime value: strings as character sequences,
/// lists as sequences of pictures, a JSON document as its canonical text.
pub enum VasoV {
    Int(i32),
    VBit(u8, Seq<char>),
    Str(Seq<char>),
    Json(Seq<char>),
    Function(int, Seq<Seq<char>>),
    List(Seq<VasoV>),
}

/// A runtime value of the language.
///
/// `VBit` is the five-valued status type; `Function` holds the token position
/// of a function body together with its parameter names; `Json` holds a JSON
/// document as its canonical serialized text; `List` is an ordered sequence
/// of values.
#[derive(Debug)]
pub enum VasoType {
    Int(i32),
    VBit(u8, String),
    Str(String),
    Json(String),
    Function(usize, Vec<String>),
    List(Vec<VasoType>),
}

/// The pictures of a sequence of runtime values, element by element.
pub open spec fn views_of(items: Seq<VasoType>) -> Seq<VasoV>
    decreases items,
{
    if items.len() == 0 {
        Seq::empty()
    } else {
        views_of(items.drop_last()).push(items.last()@)
    }
}

impl View for VasoType {
    type V = VasoV;

    open spec fn view(&self) -> VasoV
        decreases self,
    {
        match self {
            VasoType::Int(n) => VasoV::Int(*n),
            VasoType::VBit(level, msg) => VasoV::VBit(*level, msg@),
            VasoType::Str(s) => VasoV::Str(s@),
            VasoType::Json(s) => VasoV::Json(s@),
            VasoType::Function(pos, params) => VasoV::Function(*pos as int, params.deep_view()),
            VasoType::List(items) => VasoV::List(views_of(items@)),
        }
    }
}

/// `views_of` maps a sequence element by element: it keeps the length and
/// pictures each element in place.
pub proof fn lemma_views_of_index(items: Seq<VasoType>)
    ensures
        views_of(items).len() == items.len(),
        forall|i: int| 0 <= i < items.len() ==> #[trigger] views_of(items)[i] == items[i]@,
    decreases items,
{
    if items.len() > 0 {
        lemma_views_of_index(items.drop_last());
        assert(views_of(items) == views_of(items.drop_last()).push(items.last()@));
        assert forall|i: int| 0 <= i < items.len() implies #[trigger] views_of(items)[i]
            == items[i]@ by {
            if i < items.len() - 1 {
                assert(views_of(items)[i] == views_of(items.drop_last())[i]);
                assert(items.drop_last()[i] == items[i]);
            }
        }
    }
}

impl Clone for VasoType {
    /// Values are copied, never shared: a clone has the same picture as the
    /// original.
    fn clone(&self) -> (res: Self)
        ensures
            res@ == self@,
        decreases self,
    {
        match self {
            VasoType::Int(n) => VasoType::Int(*n),
            VasoType::VBit(level, msg) => VasoType::VBit(*level, msg.clone()),
            VasoType::Str(s) => VasoType::Str(s.clone()),
            VasoType::Json(s) => VasoType::Json(s.clone()),
            VasoType::Function(pos, params) => VasoType::Function(*pos, params.clone()),
            VasoType::List(items) => VasoType::List(clone_values(items)),
        }
    }
}

/// Clones every element of a list of values, keeping each picture.
pub(crate) fn clone_values(items: &Vec<VasoType>) -> (res: Vec<VasoType>)
    ensures
        views_of(res@) == views_of(items@),
    decreases items,
{
    let mut res: Vec<VasoType> = Vec::new();
    let mut j: usize = 0;
    proof {
        lemma_views_of_index(items@);
    }
    while j < items.len()
        invariant
            j <= items.len(),
            res@.len() == j,
            forall|k: int| 0 <= k < j ==> #[trigger] res@[k]@ == items@[k]@,
        decreases items.len() - j,
    {
        res.push(items[j].clone());
        j += 1;
    }
    proof {
        lemma_views_of_index(res@);
        assert(views_of(res@) =~= views_of(items@));
    }
    res
}

impl VasoType {
    /// Structural equality of two values: equal pictures, messages included.
    pub fn eq_value(&self, other: &VasoType) -> (r: bool)
        ensures
            r == (self@ == other@),
        decreases self,
    {
        match (self, other) {
            (VasoType::Int(a), VasoType::Int(b)) => a == b,
            (VasoType::VBit(la, ma), VasoType::VBit(lb, mb)) => {
                la == lb && equal_strings(ma, mb)
            },
            (VasoType::Str(a), VasoType::Str(b)) => equal_strings(a, b),
            (VasoType::Json(a), VasoType::Json(b)) => equal_strings(a, b),
            (VasoType::Function(pa, pna), VasoType::Function(pb, pnb)) => {
                pa == pb && eq_names(pna, pnb)
            },
            (VasoType::List(a), VasoType::List(b)) => eq_lists(a, b),
            _ => {
                proof {
                    assert(self@ != other@);
                }
                false
            },
        }
    }
}

/// Compares two name lists element by element.
fn eq_names(a: &Vec<String>, b: &Vec<String>) -> (r: bool)
    ensures
        r == (a.deep_view() == b.deep_view()),
{
    if a.len() != b.len() {
        proof {
            assert(a.deep_view().len() != b.deep_view().len());
        }
        return false;
    }
    let n = a.len();
    let mut j: usize = 0;
    while j < n
        invariant
            j <= n,
            n == a.len() == b.len(),
            forall|k: int| 0 <= k < j ==> #[trigger] a.deep_view()[k] == b.deep_view()[k],
        decreases n - j,
    {
        if !equal_strings(&a[j], &b[j]) {
            proof {
                assert(a.deep_view()[j as int] != b.deep_view()[j as int]);
            }
            return false;
        }
        j += 1;
    }
    proof {
        assert(a.deep_view() =~= b.deep_view());
    }
    true
}

/// Compares two lists of values element by element, by picture.
fn eq_lists(a: &Vec<VasoType>, b: &Vec<VasoType>) -> (r: bool)
    ensures
        r == (views_of(a@) == views_of(b@)),
    decreases a,
{
    proof {
        lemma_views_of_index(a@);
        lemma_views_of_index(b@);
    }
    if a.len() != b.len() {
        return false;
    }
    let n = a.len();
    let mut j: usize = 0;
    while j < n
        invariant
            j <= n,
            n == a@.len() == b@.len(),
            views_of(a@).len() == n,
            views_of(b@).len() == n,
            forall|k: int| 0 <= k < n ==> #[trigger] views_of(a@)[k] == a@[k]@,
            forall|k: int| 0 <= k < n ==> #[trigger] views_of(b@)[k] == b@[k]@,
            forall|k: int| 0 <= k < j ==> #[trigger] a@[k]@ == b@[k]@,
        decreases n - j,
    {
        if !a[j].eq_value(&b[j]) {
            proof {
                assert(views_of(a@)[j as int] != views_of(b@)[j as int]);
            }
            return false;
        }
        j += 1;
    }
    proof {
        assert(views_of(a@) =~= views_of(b@));
    }
    true
}

/// Compares two strings by their characters.
fn equal_strings(a: &String, b: &String) -> (r: bool)
    ensures
        r == (a@ == b@),
{
    *a == *b
}

/// The canonical name of a status level; levels outside `0 ..= 4` fall back
/// to `unknown`.
pub open spec fn spec_level_name(level: u8) -> Seq<char> {
    if level == 0 {
        "off"@
    } else if level == 1 {
        "on"@
    } else if level == 2 {
        "loading"@
    } else if level == 3 {
        "error"@
    } else {
        "unknown"@
    }
}

/// The character for one decimal digit.
pub open spec fn spec_digit_char(d: nat) -> char {
    ((d + 48) as u8) as char
}

/// The decimal digits of a non-negative number, most significant first.
pub open spec fn spec_digits(n: nat) -> Seq<char>
    decreases n,
{
    if n < 10 {
        seq![spec_digit_char(n)]
    } else {
        spec_digits(n / 10).push(spec_digit_char(n % 10))
    }
}

/// The decimal rendering of an integer, with a leading minus sign when
/// negative.
pub open spec fn spec_int_text(n: int) -> Seq<char> {
    if n < 0 {
        seq!['-'] + spec_digits((-n) as nat)
    } else {
        spec_digits(n as nat)
    }
}

/// The parts joined with the separator between neighbours.
pub open spec fn spec_join(parts: Seq<Seq<char>>, sep: Seq<char>) -> Seq<char>
    decreases parts.len(),
{
    if parts.len() == 0 {
        Seq::empty()
    } else if parts.len() == 1 {
        parts[0]
    } else {
        spec_join(parts.drop_last(), sep) + sep + parts.last()
    }
}

/// The console rendering of a value: an integer in decimal, a string or a
/// JSON document verbatim, a list bracketed with its rendered elements
/// comma-separated, a function as an opaque descriptor over its parameter
/// names, and a status value as its canonical name, with the message
/// appended in parentheses only when it is non-empty.
pub open spec fn spec_render(v: VasoV) -> Seq<char>
    decreases v,
{
    match v {
        VasoV::Int(n) => spec_int_text(n as int),
        VasoV::VBit(level, msg) => if msg.len() == 0 {
            spec_level_name(level)
        } else {
            spec_level_name(level) + "(\""@ + msg + "\")"@
        },
        VasoV::Str(s) => s,
        VasoV::Json(s) => s,
        VasoV::Function(_pos, params) => "fn("@ + spec_join(params, ", "@) + ")"@,
        VasoV::List(items) => "["@ + spec_join(renders_of(items), ", "@) + "]"@,
    }
}

/// The renderings of a sequence of value pictures, element by element.
pub open spec fn renders_of(items: Seq<VasoV>) -> Seq<Seq<char>>
    decreases items,
{
    if items.len() == 0 {
        Seq::empty()
    } else {
        renders_of(items.drop_last()).push(spec_render(items.last()))
    }
}

/// `renders_of` maps a sequence element by element: it keeps the length and
/// renders each element in place.
pub proof fn lemma_renders_of_index(items: Seq<VasoV>)
    ensures
        renders_of(items).len() == items.len(),
        forall|i: int| 0 <= i < items.len() ==> #[trigger] renders_of(items)[i]
            == spec_render(items[i]),
    decreases items,
{
    if items.len() > 0 {
        lemma_renders_of_index(items.drop_last());
        assert forall|i: int| 0 <= i < items.len() implies #[trigger] renders_of(items)[i]
            == spec_render(items[i]) by {
            if i < items.len() - 1 {
                assert(renders_of(items)[i] == renders_of(items.drop_last())[i]);
                assert(items.drop_last()[i] == items[i]);
            }
        }
    }
}

/// Relies on `String::push`: appends exactly the given character.
#[verifier::external_body]
fn push_char(s: &mut String, c: char)
    ensures
        final(s)@ == old(s)@.push(c),
{
    s.push(c);
}

/// Appends the decimal digits of `m` to `s`.
fn push_digits(s: &mut String, m: u32)
    ensures
        final(s)@ == old(s)@ + spec_digits(m as nat),
    decreases m,
{
    if m >= 10 {
        push_digits(s, m / 10);
    }
    let d: u8 = (m % 10) as u8;
    push_char(s, (48 + d) as char);
    proof {
        if m < 10 {
            assert(old(s)@.push(spec_digit_char(m as nat)) =~= old(s)@ + spec_digits(m as nat));
        } else {
            assert((old(s)@ + spec_digits((m / 10) as nat)).push(spec_digit_char((m % 10) as nat))
                =~= old(s)@ + spec_digits(m as nat));
        }
    }
}

/// Renders an integer in decimal.
pub fn int_text(n: i32) -> (r: String)
    ensures
        r@ == spec_int_text(n as int),
{
    let mut s = String::new();
    if n < 0 {
        push_char(&mut s, '-');
        let m: u32 = (-(n as i64)) as u32;
        push_digits(&mut s, m);
        proof {
            assert(Seq::<char>::empty().push('-') =~= seq!['-']);
            assert(seq!['-'] + spec_digits(m as nat) == spec_int_text(n as int));
        }
    } else {
        push_digits(&mut s, n as u32);
        proof {
            assert(Seq::<char>::empty() + spec_digits(n as nat) =~= spec_digits(n as nat));
        }
    }
    s
}

/// The canonical name of a status level, as text.
fn level_name(level: u8) -> (r: &'static str)
    ensures
        r@ == spec_level_name(level),
{
    if level == 0 {
        "off"
    } else if level == 1 {
        "on"
    } else if level == 2 {
        "loading"
    } else if level == 3 {
        "error"
    } else {
        "unknown"
    }
}

/// Joins the parts with the separator between neighbours.
fn join_texts(parts: &Vec<String>, sep: &str) -> (r: String)
    ensures
        r@ == spec_join(parts.deep_view(), sep@),
{
    if parts.len() == 0 {
        return String::new();
    }
    let n = parts.len();
    let mut r = parts[0].clone();
    let mut j: usize = 1;
    while j < n
        invariant
            1 <= j <= n,
            n == parts@.len(),
            r@ == spec_join(parts.deep_view().subrange(0, j as int), sep@),
        decreases n - j,
    {
        r.append(sep);
        r.append(parts[j].as_str());
        proof {
            let dv = parts.deep_view();
            assert(dv.subrange(0, j + 1).drop_last() =~= dv.subrange(0, j as int));
            assert(dv.subrange(0, j + 1).last() == dv[j as int]);
        }
        j += 1;
    }
    proof {
        assert(parts.deep_view().subrange(0, n as int) =~= parts.deep_view());
    }
    r
}

/// Renders every element of a list of values.
fn render_values(items: &Vec<VasoType>) -> (r: Vec<String>)
    ensures
        r.deep_view() == renders_of(views_of(items@)),
    decreases items,
{
    let mut r: Vec<String> = Vec::new();
    let mut j: usize = 0;
    while j < items.len()
        invariant
            j <= items.len(),
            r@.len() == j,
            forall|k: int| 0 <= k < j ==> #[trigger] r@[k]@ == spec_render(items@[k]@),
        decreases items.len() - j,
    {
        r.push(items[j].render());
        j += 1;
    }
    proof {
        lemma_views_of_index(items@);
        lemma_renders_of_index(views_of(items@));
        assert(r.deep_view() =~= renders_of(views_of(items@)));
    }
    r
}

impl VasoType {
    /// Renders the value for the console, per the rendering rule of the
    /// language: see `spec_render`.
    pub fn render(&self) -> (r: String)
        ensures
            r@ == spec_render(self@),
        decreases self,
    {
        match self {
            VasoType::Int(n) => int_text(*n),
            VasoType::Str(s) => s.clone(),
            VasoType::Json(s) => s.clone(),
            VasoType::VBit(level, msg) => {
                let mut r = level_name(*level).to_owned();
                if !msg.as_str().is_empty() {
                    r.append("(\"");
                    r.append(msg.as_str());
                    r.append("\")");
                }
                r
            },
            VasoType::Function(_pos, params) => {
                let mut r = "fn(".to_owned();
                let body = join_texts(params, ", ");
                r.append(body.as_str());
                r.append(")");
                r
            },
            VasoType::List(items) => {
                let texts = render_values(items);
                let mut r = "[".to_owned();
                let body = join_texts(&texts, ", ");
                r.append(body.as_str());
                r.append("]");
                r
            },
        }
    }
}

/// A user-declared record shape: field names paired with type names.
pub struct StructDef {
    pub fields: Vec<(String, String)>,
}

} // verus!
