//! The circuit recipe: `KIND:i:j,...` for each node in index order, then
//! `NODE_OUTPUT:i:j:...` for each output counter.
use vstd::prelude::*;
use crate::circuit::{circuit_ok, mutation_of, GenBot3};
use crate::nodes::{kind_name, node_type_of_name, output_name, Node, NodeOutput, NodeType};
use crate::text::{chars_eq, chars_of, string_of};

verus! {

/// The decimal digit character of `d`.
pub open spec fn digit_char(d: int) -> char {
    if d == 0 { '0' }
    else if d == 1 { '1' }
    else if d == 2 { '2' }
    else if d == 3 { '3' }
    else if d == 4 { '4' }
    else if d == 5 { '5' }
    else if d == 6 { '6' }
    else if d == 7 { '7' }
    else if d == 8 { '8' }
    else { '9' }
}

/// The decimal text of `n`, without leading zeros.
pub open spec fn digits(n: nat) -> Seq<char>
    decreases n,
{
    if n < 10 {
        seq![digit_char(n as int)]
    } else {
        digits(n / 10).push(digit_char((n % 10) as int))
    }
}

/// `:i` for each index `i`.
pub open spec fn index_suffix(idx: Seq<usize>) -> Seq<char>
    decreases idx.len(),
{
    if idx.len() == 0 {
        Seq::empty()
    } else {
        index_suffix(idx.drop_last()) + seq![':'] + digits(idx.last() as nat)
    }
}

/// The recipe block of a node.
pub open spec fn node_block(n: Node) -> Seq<char> {
    kind_name(n.node_type) + index_suffix(n.input_indexes@)
}

/// The recipe block of an output counter.
pub open spec fn output_block(o: NodeOutput) -> Seq<char> {
    output_name() + index_suffix(o.input_indexes@)
}

/// `parts` joined with `sep`.
pub open spec fn join(parts: Seq<Seq<char>>, sep: char) -> Seq<char>
    decreases parts.len(),
{
    if parts.len() == 0 {
        Seq::empty()
    } else if parts.len() == 1 {
        parts[0]
    } else {
        join(parts.drop_last(), sep) + seq![sep] + parts.last()
    }
}

/// The blocks of a circuit: its nodes, then its output counters.
pub open spec fn recipe_blocks(nodes: Seq<Node>, outs: Seq<NodeOutput>) -> Seq<Seq<char>> {
    nodes.map_values(|n: Node| node_block(n)) + outs.map_values(|o: NodeOutput| output_block(o))
}

/// The recipe text of a circuit.
pub open spec fn recipe_of(nodes: Seq<Node>, outs: Seq<NodeOutput>) -> Seq<char> {
    join(recipe_blocks(nodes, outs), ',')
}

/// The parts of `s` between occurrences of `sep` (one empty part for an
/// empty text).
pub open spec fn split(s: Seq<char>, sep: char) -> Seq<Seq<char>>
    decreases s.len(),
{
    if s.len() == 0 {
        seq![Seq::<char>::empty()]
    } else {
        let p = split(s.drop_last(), sep);
        if s.last() == sep {
            p.push(Seq::empty())
        } else {
            p.update(p.len() - 1, p.last().push(s.last()))
        }
    }
}

/// The value of a text of decimal digits.
pub open spec fn number_of(s: Seq<char>) -> int
    decreases s.len(),
{
    if s.len() == 0 {
        0
    } else {
        number_of(s.drop_last()) * 10 + (s.last() as int - '0' as int)
    }
}

/// Whether every character of `s` is a decimal digit.
pub open spec fn all_digits(s: Seq<char>) -> bool {
    forall|i: int| 0 <= i < s.len() ==> '0' <= #[trigger] s[i] <= '9'
}

/// Pushes the decimal digit of `d`.
fn digit_exec(d: usize) -> (r: char)
    requires
        d < 10,
    ensures
        r == digit_char(d as int),
{
    if d == 0 { '0' }
    else if d == 1 { '1' }
    else if d == 2 { '2' }
    else if d == 3 { '3' }
    else if d == 4 { '4' }
    else if d == 5 { '5' }
    else if d == 6 { '6' }
    else if d == 7 { '7' }
    else if d == 8 { '8' }
    else { '9' }
}

/// Appends the decimal text of `n` to `out`.
fn push_digits(out: &mut Vec<char>, n: usize)
    ensures
        final(out)@ == old(out)@ + digits(n as nat),
    decreases n,
{
    if n >= 10 {
        push_digits(out, n / 10);
    }
    out.push(digit_exec(n % 10));
    assert(final(out)@ =~= old(out)@ + digits(n as nat));
}

/// Appends the decimal text of `n` to `out`.
pub fn push_digits_u64(out: &mut Vec<char>, n: u64)
    ensures
        final(out)@ == old(out)@ + digits(n as nat),
    decreases n,
{
    if n >= 10 {
        push_digits_u64(out, n / 10);
    }
    out.push(digit_exec((n % 10) as usize));
    assert(final(out)@ =~= old(out)@ + digits(n as nat));
}

/// Appends `s` to `out`.
fn push_all(out: &mut Vec<char>, s: &Vec<char>)
    ensures
        final(out)@ == old(out)@ + s@,
{
    let mut i: usize = 0;
    while i < s.len()
        invariant
            i <= s@.len(),
            out@ == old(out)@ + s@.subrange(0, i as int),
        decreases s.len() - i,
    {
        out.push(s[i]);
        i = i + 1;
        assert(out@ =~= old(out)@ + s@.subrange(0, i as int));
    }
    assert(s@.subrange(0, s@.len() as int) =~= s@);
}

/// Appends `:i` for each index.
fn push_suffix(out: &mut Vec<char>, idx: &Vec<usize>)
    ensures
        final(out)@ == old(out)@ + index_suffix(idx@),
{
    let mut k: usize = 0;
    while k < idx.len()
        invariant
            k <= idx@.len(),
            out@ == old(out)@ + index_suffix(idx@.subrange(0, k as int)),
        decreases idx.len() - k,
    {
        let ghost pre = out@;
        out.push(':');
        push_digits(out, idx[k]);
        assert(idx@.subrange(0, k + 1).drop_last() =~= idx@.subrange(0, k as int));
        k = k + 1;
        assert(out@ =~= old(out)@ + index_suffix(idx@.subrange(0, k as int)));
    }
    assert(idx@.subrange(0, idx@.len() as int) =~= idx@);
}

proof fn lemma_join_push(parts: Seq<Seq<char>>, x: Seq<char>, sep: char)
    requires
        parts.len() > 0,
    ensures
        join(parts.push(x), sep) == join(parts, sep) + seq![sep] + x,
{
    assert(parts.push(x).drop_last() =~= parts);
}

impl GenBot3 {
    /// The recipe text of this genome.
    pub fn get_recipe(&self) -> (r: String)
        ensures
            r@ == recipe_of(self.node_seq(), self.output_seq()),
    {
        let ghost blocks = recipe_blocks(self.node_seq(), self.output_seq());
        let mut out: Vec<char> = Vec::new();
        let n = self.node_count();
        let m = self.output_count();
        let mut k: usize = 0;
        while k < n
            invariant
                n == self.node_seq().len(),
                m == self.output_seq().len(),
                blocks == recipe_blocks(self.node_seq(), self.output_seq()),
                blocks.len() == n + m,
                k <= n,
                out@ == join(blocks.subrange(0, k as int), ','),
            decreases n - k,
        {
            let ghost pre = blocks.subrange(0, k as int);
            if k > 0 {
                out.push(',');
            }
            let node = self.node(k);
            let name = chars_of(crate::nodes::kind_name_of(node.node_type).as_str());
            push_all(&mut out, &name);
            push_suffix(&mut out, &node.input_indexes);
            assert(blocks[k as int] == node_block(*node));
            proof {
                assert(blocks.subrange(0, k + 1) =~= pre.push(blocks[k as int]));
                if k > 0 {
                    lemma_join_push(pre, blocks[k as int], ',');
                } else {
                    assert(pre.push(blocks[k as int]).len() == 1);
                }
            }
            k = k + 1;
        }
        let mut j: usize = 0;
        while j < m
            invariant
                n == self.node_seq().len(),
                m == self.output_seq().len(),
                blocks == recipe_blocks(self.node_seq(), self.output_seq()),
                blocks.len() == n + m,
                j <= m,
                out@ == join(blocks.subrange(0, n + j), ','),
            decreases m - j,
        {
            let ghost pre = blocks.subrange(0, n + j);
            if n > 0 || j > 0 {
                out.push(',');
            }
            let o = self.output_node(j);
            let name = chars_of(o.name().as_str());
            push_all(&mut out, &name);
            push_suffix(&mut out, &o.input_indexes);
            assert(blocks[n + j] == output_block(*o));
            proof {
                assert(blocks.subrange(0, n + j + 1) =~= pre.push(blocks[n + j]));
                if n > 0 || j > 0 {
                    lemma_join_push(pre, blocks[n + j], ',');
                } else {
                    assert(pre.push(blocks[n + j]).len() == 1);
                }
            }
            j = j + 1;
        }
        assert(blocks.subrange(0, n + m) =~= blocks);
        string_of(&out)
    }
}


/// The parts of `s` between occurrences of `sep`.
fn split_exec(s: &Vec<char>, sep: char) -> (r: Vec<Vec<char>>)
    ensures
        r@.map_values(|v: Vec<char>| v@) == split(s@, sep),
        r@.len() >= 1,
{
    let mut parts: Vec<Vec<char>> = Vec::new();
    parts.push(Vec::new());
    assert(parts@.map_values(|v: Vec<char>| v@) =~= split(s@.subrange(0, 0), sep));
    let mut i: usize = 0;
    while i < s.len()
        invariant
            i <= s@.len(),
            parts@.len() >= 1,
            parts@.map_values(|v: Vec<char>| v@) == split(s@.subrange(0, i as int), sep),
        decreases s.len() - i,
    {
        let c = s[i];
        let ghost pre = s@.subrange(0, i as int);
        assert(s@.subrange(0, i + 1).drop_last() =~= pre);
        assert(s@.subrange(0, i + 1).last() == c);
        if c == sep {
            parts.push(Vec::new());
            assert(parts@.map_values(|v: Vec<char>| v@) =~= split(pre, sep).push(Seq::empty()));
        } else {
            let mut last = parts.pop().unwrap();
            last.push(c);
            parts.push(last);
            let ghost sp = split(pre, sep);
            assert(parts@.map_values(|v: Vec<char>| v@) =~= sp.update(sp.len() - 1, sp.last().push(c)));
        }
        i = i + 1;
    }
    assert(s@.subrange(0, s@.len() as int) =~= s@);
    parts
}

proof fn lemma_number_grows(s: Seq<char>, k: int)
    requires
        all_digits(s),
        0 <= k <= s.len(),
    ensures
        number_of(s.subrange(0, k)) <= number_of(s),
        number_of(s.subrange(0, k)) >= 0,
    decreases s.len() - k,
{
    if k < s.len() {
        lemma_number_grows(s, k + 1);
        let a = s.subrange(0, k);
        let b = s.subrange(0, k + 1);
        assert(b.drop_last() =~= a);
        assert('0' <= b.last() <= '9');
        lemma_number_nonneg(a);
    } else {
        assert(s.subrange(0, k) =~= s);
        lemma_number_nonneg(s);
    }
}

proof fn lemma_number_nonneg(s: Seq<char>)
    requires
        all_digits(s),
    ensures
        number_of(s) >= 0,
    decreases s.len(),
{
    if s.len() > 0 {
        assert(all_digits(s.drop_last()));
        lemma_number_nonneg(s.drop_last());
        assert('0' <= s.last() <= '9');
    }
}

/// The value of a nonempty run of decimal digits that fits a `usize`.
fn parse_number(tok: &Vec<char>) -> (r: Option<usize>)
    ensures
        r.is_some() <==> (tok@.len() > 0 && all_digits(tok@) && number_of(tok@) <= usize::MAX),
        r.is_some() ==> r.unwrap() == number_of(tok@),
{
    if tok.len() == 0 {
        return None;
    }
    let mut v: usize = 0;
    let mut i: usize = 0;
    while i < tok.len()
        invariant
            i <= tok@.len(),
            all_digits(tok@.subrange(0, i as int)),
            v == number_of(tok@.subrange(0, i as int)),
        decreases tok.len() - i,
    {
        let c = tok[i];
        let ghost pre = tok@.subrange(0, i as int);
        assert(tok@.subrange(0, i + 1).drop_last() =~= pre);
        if c < '0' || c > '9' {
            assert(!all_digits(tok@));
            return None;
        }
        let d = (c as u32 - '0' as u32) as usize;
        if v > (usize::MAX - d) / 10 {
            proof {
                assert(v * 10 + d > usize::MAX) by (nonlinear_arith)
                    requires v > (usize::MAX - d) / 10, d <= 9;
                if all_digits(tok@) {
                    lemma_number_grows(tok@, i + 1);
                }
            }
            return None;
        }
        assert(v * 10 + d <= usize::MAX) by (nonlinear_arith)
            requires v <= (usize::MAX - d) / 10, d <= 9;
        v = v * 10 + d;
        i = i + 1;
        assert(all_digits(tok@.subrange(0, i as int)));
    }
    assert(tok@.subrange(0, tok@.len() as int) =~= tok@);
    Some(v)
}

/// The number tokens after the name, as indexes.
fn parse_indexes(toks: &Vec<Vec<char>>) -> (r: Option<Vec<usize>>)
    requires
        toks@.len() >= 1,
    ensures
        r.is_some() <==> forall|k: int| 1 <= k < toks@.len() ==>
            (#[trigger] toks@[k])@.len() > 0 && all_digits(toks@[k]@) && number_of(toks@[k]@) <= usize::MAX,
        r.is_some() ==> r.unwrap()@.len() == toks@.len() - 1
            && forall|k: int| 0 <= k < r.unwrap()@.len() ==> #[trigger] r.unwrap()@[k] == number_of(toks@[k + 1]@),
{
    let mut out: Vec<usize> = Vec::new();
    let mut k: usize = 1;
    while k < toks.len()
        invariant
            1 <= k <= toks@.len(),
            out@.len() == k - 1,
            forall|j: int| 1 <= j < k ==>
                (#[trigger] toks@[j])@.len() > 0 && all_digits(toks@[j]@) && number_of(toks@[j]@) <= usize::MAX,
            forall|j: int| 0 <= j < out@.len() ==> #[trigger] out@[j] == number_of(toks@[j + 1]@),
        decreases toks.len() - k,
    {
        match parse_number(&toks[k]) {
            Some(n) => {
                out.push(n);
            },
            None => {
                return None;
            },
        }
        k = k + 1;
    }
    Some(out)
}

proof fn lemma_split_extend(p: Seq<char>, b: Seq<char>, sep: char)
    requires
        !b.contains(sep),
    ensures
        split(p + b, sep) == split(p, sep).update(split(p, sep).len() - 1, split(p, sep).last() + b),
        split(p, sep).len() >= 1,
    decreases b.len(),
{
    lemma_split_len(p, sep);
    if b.len() == 0 {
        assert(p + b =~= p);
        assert(split(p, sep).last() + b =~= split(p, sep).last());
        assert(split(p, sep).update(split(p, sep).len() - 1, split(p, sep).last()) =~= split(p, sep));
    } else {
        let c = b.last();
        let b0 = b.drop_last();
        assert(!b0.contains(sep)) by {
            if b0.contains(sep) {
                let j = choose|j: int| 0 <= j < b0.len() && b0[j] == sep;
                assert(b[j] == sep);
            }
        }
        assert(b[b.len() - 1] == c);
        lemma_split_extend(p, b0, sep);
        assert((p + b).drop_last() =~= p + b0);
        assert((p + b).last() == c);
        lemma_split_len(p + b0, sep);
        let sp = split(p, sep);
        assert(c != sep);
        let q = split(p + b0, sep);
        assert(q.len() == sp.len());
        assert(q.last() == sp.last() + b0);
        assert((sp.last() + b0).push(c) =~= sp.last() + b);
        assert(split(p + b, sep) =~= sp.update(sp.len() - 1, sp.last() + b));
    }
}

proof fn lemma_split_len(s: Seq<char>, sep: char)
    ensures
        split(s, sep).len() >= 1,
    decreases s.len(),
{
    if s.len() > 0 {
        lemma_split_len(s.drop_last(), sep);
    }
}

proof fn lemma_split_join(parts: Seq<Seq<char>>, sep: char)
    requires
        parts.len() >= 1,
        forall|i: int| 0 <= i < parts.len() ==> !(#[trigger] parts[i]).contains(sep),
    ensures
        split(join(parts, sep), sep) == parts,
    decreases parts.len(),
{
    if parts.len() == 1 {
        lemma_split_extend(Seq::empty(), parts[0], sep);
        assert(Seq::<char>::empty() + parts[0] =~= parts[0]);
        assert(Seq::<char>::empty() + parts[0] =~= parts[0]);
        assert(split(join(parts, sep), sep) =~= parts);
    } else {
        let dl = parts.drop_last();
        let l = parts.last();
        assert(forall|i: int| 0 <= i < dl.len() ==> dl[i] == parts[i]);
        lemma_split_join(dl, sep);
        let j = join(dl, sep);
        assert(!parts[parts.len() - 1].contains(sep));
        lemma_split_extend(j.push(sep), l, sep);
        assert(j + seq![sep] + l =~= j.push(sep) + l);
        assert(j.push(sep).drop_last() =~= j);
        assert(split(j.push(sep), sep) == dl.push(Seq::<char>::empty()));
        assert(Seq::<char>::empty() + l =~= l);
        assert(split(join(parts, sep), sep) =~= parts);
    }
}

proof fn lemma_digit_char(d: int)
    requires
        0 <= d < 10,
    ensures
        '0' <= digit_char(d) <= '9',
        digit_char(d) as int - '0' as int == d,
{
}

proof fn lemma_digits(n: nat)
    ensures
        digits(n).len() > 0,
        all_digits(digits(n)),
        number_of(digits(n)) == n,
    decreases n,
{
    if n < 10 {
        lemma_digit_char(n as int);
        assert(digits(n).drop_last() =~= Seq::<char>::empty());
        assert(number_of(digits(n)) == number_of(Seq::<char>::empty()) * 10 + n);
    } else {
        lemma_digits(n / 10);
        lemma_digit_char((n % 10) as int);
        assert(digits(n).drop_last() =~= digits(n / 10));
        assert(digits(n).last() == digit_char((n % 10) as int));
        assert((n / 10) * 10 + n % 10 == n) by (nonlinear_arith);
        assert forall|i: int| 0 <= i < digits(n).len() implies '0' <= #[trigger] digits(n)[i] <= '9' by {
            if i < digits(n).len() - 1 {
                assert(digits(n)[i] == digits(n / 10)[i]);
            }
        }
    }
}

proof fn lemma_digits_free(n: nat, c: char)
    requires
        c == ',' || c == ':',
    ensures
        !digits(n).contains(c),
{
    lemma_digits(n);
    if digits(n).contains(c) {
        let j = choose|j: int| 0 <= j < digits(n).len() && digits(n)[j] == c;
        assert('0' <= digits(n)[j] <= '9');
    }
}

/// The name token and the number tokens of a block.
pub open spec fn block_tokens(name: Seq<char>, idx: Seq<usize>) -> Seq<Seq<char>> {
    seq![name] + idx.map_values(|i: usize| digits(i as nat))
}

proof fn lemma_block_join(name: Seq<char>, idx: Seq<usize>)
    ensures
        name + index_suffix(idx) == join(block_tokens(name, idx), ':'),
    decreases idx.len(),
{
    if idx.len() == 0 {
        assert(name + index_suffix(idx) =~= name);
        assert(block_tokens(name, idx) =~= seq![name]);
    } else {
        let dl = idx.drop_last();
        lemma_block_join(name, dl);
        assert(block_tokens(name, idx) =~= block_tokens(name, dl).push(digits(idx.last() as nat)));
        lemma_join_push(block_tokens(name, dl), digits(idx.last() as nat), ':');
        assert(name + index_suffix(idx) =~= name + index_suffix(dl) + seq![':'] + digits(idx.last() as nat));
    }
}

proof fn no_comma_concat(a: Seq<char>, b: Seq<char>)
    requires
        !a.contains(','),
        !b.contains(','),
    ensures
        !(a + b).contains(','),
{
    if (a + b).contains(',') {
        let j = choose|j: int| 0 <= j < (a + b).len() && (a + b)[j] == ',';
        if j < a.len() {
            assert(a[j] == ',');
        } else {
            assert(b[j - a.len()] == ',');
        }
    }
}

proof fn lemma_suffix_no_comma(idx: Seq<usize>)
    ensures
        !index_suffix(idx).contains(','),
    decreases idx.len(),
{
    if idx.len() > 0 {
        let dl = idx.drop_last();
        lemma_suffix_no_comma(dl);
        lemma_digits_free(idx.last() as nat, ',');
        let s = index_suffix(idx);
        if s.contains(',') {
            let j = choose|j: int| 0 <= j < s.len() && s[j] == ',';
            let a = index_suffix(dl);
            let d = digits(idx.last() as nat);
            if j < a.len() {
                assert(a[j] == ',');
            } else if j == a.len() {
                assert(s[j] == ':');
            } else {
                assert(d[j - a.len() - 1] == ',');
            }
        }
    }
}

/// Facts about the recipe names.
proof fn lemma_names()
    ensures
        forall|t: NodeType| !(#[trigger] kind_name(t)).contains(',') && !kind_name(t).contains(':'),
        forall|t: NodeType| #[trigger] kind_name(t) != output_name(),
        forall|t1: NodeType, t2: NodeType| #[trigger] kind_name(t1) == #[trigger] kind_name(t2) ==> t1 == t2,
        !output_name().contains(',') && !output_name().contains(':'),
        forall|t: NodeType| (#[trigger] kind_name(t)).len() > 0,
{
    reveal_strlit("NODE_INPUT");
    reveal_strlit("NODE_NOT");
    reveal_strlit("NODE_AND");
    reveal_strlit("NODE_OR");
    reveal_strlit("NODE_XOR");
    reveal_strlit("NODE_NAND");
    reveal_strlit("NODE_NOR");
    reveal_strlit("NODE_XNOR");
    reveal_strlit("NODE_OUTPUT");
    assert forall|t: NodeType| !(#[trigger] kind_name(t)).contains(',') && !kind_name(t).contains(':') by {
        let n = kind_name(t);
        if n.contains(',') || n.contains(':') {
            let j = choose|j: int| 0 <= j < n.len() && (n[j] == ',' || n[j] == ':');
            assert(false);
        }
    }
    assert forall|t1: NodeType, t2: NodeType| #[trigger] kind_name(t1) == #[trigger] kind_name(t2) implies t1 == t2 by {
        let a = kind_name(t1);
        let b = kind_name(t2);
        assert(a.len() == b.len());
        assert(a[5] == b[5]);
        assert(a[6] == b[6]);
        assert(a[7] == b[7]);
    }
    assert forall|t: NodeType| #[trigger] kind_name(t) != output_name() by {
        let a = kind_name(t);
        if a == output_name() {
            assert(a.len() == 11);
        }
    }
    let o = output_name();
    if o.contains(',') || o.contains(':') {
        let j = choose|j: int| 0 <= j < o.len() && (o[j] == ',' || o[j] == ':');
        assert(false);
    }
}

/// The canonical recipe text of a well-formed circuit.
pub open spec fn is_recipe(s: Seq<char>) -> bool {
    exists|c: (Seq<Node>, Seq<NodeOutput>)| circuit_ok(c.0, c.1) && recipe_of(c.0, c.1) == s
}

impl GenBot3 {
    /// The genome whose recipe text is `recipe`. Only the canonical text of
    /// a well-formed circuit is accepted; anything else gives `None`.
    pub fn from_recipe(recipe: &str) -> (r: Option<GenBot3>)
        ensures
            r.is_some() ==> r.unwrap().wf() && recipe_of(r.unwrap().node_seq(), r.unwrap().output_seq()) == recipe@,
            is_recipe(recipe@) ==> r.is_some(),
    {
        let s = chars_of(recipe);
        if s.len() == 0 {
            let g = GenBot3::empty();
            assert(recipe_blocks(g.node_seq(), g.output_seq()) =~= Seq::<Seq<char>>::empty());
            return Some(g);
        }
        let ghost hyp = is_recipe(s@);
        let ghost pair: (Seq<Node>, Seq<NodeOutput>) = if hyp {
            choose|pair: (Seq<Node>, Seq<NodeOutput>)| circuit_ok(pair.0, pair.1) && recipe_of(pair.0, pair.1) == s@
        } else {
            arbitrary()
        };
        let ghost nn = pair.0;
        let ghost oo = pair.1;
        let ghost bl = recipe_blocks(nn, oo);
        proof {
            if hyp {
                assert(circuit_ok(nn, oo) && recipe_of(nn, oo) == s@);
                lemma_names();
                assert(bl.len() >= 1);
                assert forall|i: int| 0 <= i < bl.len() implies !(#[trigger] bl[i]).contains(',') by {
                    if i < nn.len() {
                        let n = nn[i];
                        assert(bl[i] == node_block(n));
                        lemma_suffix_no_comma(n.input_indexes@);
                        no_comma_concat(kind_name(n.node_type), index_suffix(n.input_indexes@));
                    } else {
                        let o = oo[i - nn.len()];
                        assert(bl[i] == output_block(o));
                        lemma_suffix_no_comma(o.input_indexes@);
                        no_comma_concat(output_name(), index_suffix(o.input_indexes@));
                    }
                }
                lemma_split_join(bl, ',');
            }
        }
        let blocks = split_exec(&s, ',');
        let output_label = chars_of("NODE_OUTPUT");
        let mut nodes: Vec<Node> = Vec::new();
        let mut outs: Vec<NodeOutput> = Vec::new();
        let mut b: usize = 0;
        while b < blocks.len()
            invariant
                b <= blocks@.len(),
                s@ == recipe@,
                hyp == is_recipe(s@),
                output_label@ == output_name(),
                blocks@.map_values(|v: Vec<char>| v@) == split(s@, ','),
                hyp ==> circuit_ok(nn, oo) && blocks@.len() == nn.len() + oo.len()
                    && split(s@, ',') == bl && bl == recipe_blocks(nn, oo),
                forall|k: int| 0 <= k < nodes@.len() ==> (#[trigger] nodes@[k]).index == k,
                hyp && b <= nn.len() ==> nodes@.len() == b && outs@.len() == 0,
                hyp && b > nn.len() ==> nodes@.len() == nn.len() && outs@.len() == b - nn.len(),
                hyp ==> forall|k: int| 0 <= k < nodes@.len() ==>
                    (#[trigger] nodes@[k]).node_type == nn[k].node_type
                    && nodes@[k].input_indexes@ == nn[k].input_indexes@,
                hyp ==> forall|k: int| 0 <= k < outs@.len() ==>
                    (#[trigger] outs@[k]).input_indexes@ == oo[k].input_indexes@,
            decreases blocks.len() - b,
        {
            let ghost btext = blocks@[b as int]@;
            let ghost is_node = (b as int) < nn.len();
            let ghost name = if is_node { kind_name(nn[b as int].node_type) } else { output_name() };
            let ghost idx = if is_node { nn[b as int].input_indexes@ } else { oo[b - nn.len()].input_indexes@ };
            proof {
                if hyp {
                    assert(btext == bl[b as int]);
                    lemma_names();
                    lemma_block_join(name, idx);
                    assert(btext == name + index_suffix(idx));
                    let bt = block_tokens(name, idx);
                    assert forall|i: int| 0 <= i < bt.len() implies !(#[trigger] bt[i]).contains(':') by {
                        if i > 0 {
                            lemma_digits_free(idx[i - 1] as nat, ':');
                        }
                    }
                    lemma_split_join(bt, ':');
                }
            }
            let toks = split_exec(&blocks[b], ':');
            proof {
                if hyp {
                    let bt = block_tokens(name, idx);
                    assert(toks@.map_values(|v: Vec<char>| v@) == bt);
                    assert(toks@.len() == idx.len() + 1);
                    assert forall|k: int| 1 <= k < toks@.len() implies
                        (#[trigger] toks@[k])@.len() > 0 && all_digits(toks@[k]@) && number_of(toks@[k]@) <= usize::MAX by {
                        assert(toks@[k]@ == bt[k]);
                        assert(bt[k] == digits(idx[k - 1] as nat));
                        lemma_digits(idx[k - 1] as nat);
                    }
                }
            }
            let idxv = match parse_indexes(&toks) {
                Some(v) => v,
                None => {
                    return None;
                },
            };
            proof {
                if hyp {
                    let bt = block_tokens(name, idx);
                    assert(toks@.map_values(|v: Vec<char>| v@)[0] == toks@[0]@);
                    assert(bt[0] == name);
                    assert(toks@[0]@ == name);
                    assert forall|k: int| 0 <= k < idx.len() implies #[trigger] idxv@[k] == idx[k] by {
                        assert(toks@[k + 1]@ == bt[k + 1]);
                        assert(bt[k + 1] == digits(idx[k] as nat));
                        lemma_digits(idx[k] as nat);
                    }
                    assert(idxv@ =~= idx);
                }
            }
            if chars_eq(toks[0].as_slice(), output_label.as_slice()) {
                proof {
                    if hyp {
                        lemma_names();
                        assert(!is_node);
                    }
                }
                outs.push(NodeOutput { num_inputs: idxv.len(), input_indexes: idxv, output: 0 });
            } else {
                match node_type_of_name(toks[0].as_slice()) {
                    Some(t) => {
                        proof {
                            if hyp {
                                lemma_names();
                                assert(is_node);
                                assert(kind_name(t) == kind_name(nn[b as int].node_type));
                                assert(t == nn[b as int].node_type);
                                assert(crate::circuit::node_ok(nn, b as int));
                            }
                        }
                        let mut node = Node::new_typed(t);
                        if t != NodeType::Input && idxv.len() > 0 {
                            node.num_inputs = idxv.len();
                            node.input_indexes = idxv;
                        }
                        node.index = nodes.len();
                        nodes.push(node);
                    },
                    None => {
                        proof {
                            if hyp {
                                lemma_names();
                                assert(is_node);
                            }
                        }
                        return None;
                    },
                }
            }
            b = b + 1;
        }
        proof {
            if hyp {
                assert(nodes@.len() == nn.len() && outs@.len() == oo.len());
                assert forall|i: int| 0 <= i < nodes@.len() implies #[trigger] crate::circuit::node_ok(nodes@, i) by {
                    assert(crate::circuit::node_ok(nn, i));
                    assert(nodes@[i].node_type == nn[i].node_type);
                }
                assert forall|j: int| 0 <= j < outs@.len() implies
                    crate::nodes::indexes_below(#[trigger] outs@[j].input_indexes@, nodes@.len() as int) by {
                    assert(crate::nodes::indexes_below(oo[j].input_indexes@, nn.len() as int));
                }
                assert(recipe_blocks(nodes@, outs@) =~= bl);
            }
        }
        let ghost pn = nodes@;
        let ghost po = outs@;
        let g = match GenBot3::from_parts(nodes, outs) {
            Some(g) => g,
            None => {
                return None;
            },
        };
        let text = chars_of(g.get_recipe().as_str());
        if chars_eq(text.as_slice(), s.as_slice()) {
            Some(g)
        } else {
            None
        }
    }
}

/// Round trip: the recipe text of every well-formed genome is canonical, so
/// `from_recipe` accepts it and the genome it reads back has the very same
/// recipe text.
pub proof fn lemma_recipe_round_trip(g: GenBot3)
    requires
        g.wf(),
    ensures
        is_recipe(recipe_of(g.node_seq(), g.output_seq())),
{
    let c = (g.node_seq(), g.output_seq());
    assert(circuit_ok(c.0, c.1) && recipe_of(c.0, c.1) == recipe_of(g.node_seq(), g.output_seq()));
}

/// Whether `child` is the recipe of a mutation of the genome that `parent`
/// names, or of the empty genome when `parent` is no recipe.
pub open spec fn child_of(parent: Seq<char>, child: Seq<char>) -> bool {
    exists|g: (Seq<Node>, Seq<NodeOutput>), h: (Seq<Node>, Seq<NodeOutput>)|
        circuit_ok(g.0, g.1)
        && (is_recipe(parent) ==> recipe_of(g.0, g.1) == parent)
        && (!is_recipe(parent) ==> g.0.len() == 0 && g.1.len() == 0)
        && #[trigger] mutation_of(g.0, g.1, h.0, h.1)
        && circuit_ok(h.0, h.1)
        && recipe_of(h.0, h.1) == child
}

/// `count` mutated children of the circuit recipe `parent`, each with
/// whether its recipe differs from the parent's.
pub fn circuit_children(parent: &str, count: u32) -> (r: Vec<(String, bool)>)
    ensures
        r@.len() == count,
        forall|k: int| 0 <= k < r@.len() ==> child_of(parent@, (#[trigger] r@[k]).0@)
            && r@[k].1 == (r@[k].0@ != parent@),
{
    let p = chars_of(parent);
    let mut out: Vec<(String, bool)> = Vec::new();
    let mut k: u32 = 0;
    while k < count
        invariant
            k <= count,
            p@ == parent@,
            out@.len() == k,
            forall|i: int| 0 <= i < out@.len() ==> child_of(parent@, (#[trigger] out@[i]).0@)
                && out@[i].1 == (out@[i].0@ != parent@),
        decreases count - k,
    {
        let mut g = match GenBot3::from_recipe(parent) {
            Some(g) => g,
            None => GenBot3::empty(),
        };
        let ghost before = (g.node_seq(), g.output_seq());
        g.mutate();
        let text = g.get_recipe();
        let tc = chars_of(text.as_str());
        let differs = !chars_eq(tc.as_slice(), p.as_slice());
        proof {
            let after = (g.node_seq(), g.output_seq());
            assert(mutation_of(before.0, before.1, after.0, after.1));
            assert(child_of(parent@, text@));
        }
        out.push((text, differs));
        k = k + 1;
    }
    out
}

} // verus!
