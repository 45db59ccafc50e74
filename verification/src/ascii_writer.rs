//! Writing documents in the ASCII FBX format.
//!
//! A document is written as two comment lines (`; ` and the text), an empty
//! line, then each top-level node followed by an empty line. A node is its
//! indentation and name; then, when it has values, a colon and each value
//! after a space, separated by commas; then either a line end, or ` {`, its
//! array as an `a: ` line and its children one level deeper, and a closing
//! brace at its own indentation. Strings are quoted, with each quote inside
//! escaped by a backslash; booleans are `1` and `0`.
use vstd::prelude::*;
use vstd::string::StrSliceExecFns;
use crate::binary::{
    ArrayData, ArrayModel, FbxDocument, FbxNode, NodeModel, Value, ValueArray, ValueModel, nodes_model,
};
use crate::binary_writer::lemma_nodes_model_index;
use crate::error::Error;
use crate::writer::SaveOpts;
use vstd::utf8::encode_utf8;
use crate::text::{
    char_bytes, decimal, lemma_decimal_spells, push_char, push_decimal, push_signed_decimal, push_str, signed_decimal,
};
use crate::ascii::ascii_bytes;
use crate::obj::i64_text;
use crate::utils::float_parse::is_digit;

verus! {

/// `s` with a backslash before each double quote.
pub open spec fn escaped(s: Seq<char>) -> Seq<char>
    decreases s.len(),
{
    if s.len() == 0 {
        Seq::empty()
    } else {
        escaped(s.drop_last()) + if s.last() == '"' {
            seq!['\\', '"']
        } else {
            seq![s.last()]
        }
    }
}

/// A string as the format writes it: quoted and escaped.
pub open spec fn quoted(s: Seq<char>) -> Seq<char> {
    seq!['"'] + escaped(s) + seq!['"']
}

/// Whether a value is a float, which this writer leaves to the caller.
pub open spec fn is_float(v: ValueModel) -> bool {
    v is Float32 || v is Float64
}

/// The text of a value that is not a float.
pub open spec fn value_text(v: ValueModel) -> Seq<char> {
    match v {
        ValueModel::Bool(b) => if b {
            seq!['1']
        } else {
            seq!['0']
        },
        ValueModel::Int16(x) => signed_decimal(x as int),
        ValueModel::Int32(x) => signed_decimal(x as int),
        ValueModel::Int64(x) => signed_decimal(x as int),
        ValueModel::Str(s) => quoted(s),
        ValueModel::Number { i, .. } => signed_decimal(i as int),
        _ => Seq::empty(),
    }
}

/// The values of a node after its name: a colon, then each value after a
/// space, separated by commas; nothing without values.
pub open spec fn values_text(vs: Seq<ValueModel>) -> Seq<char> {
    if vs.len() == 0 {
        Seq::empty()
    } else {
        seq![':'] + value_list(vs, vs.len() as int)
    }
}

/// The first `k` values, each after a space, separated by commas.
pub open spec fn value_list(vs: Seq<ValueModel>, k: int) -> Seq<char>
    decreases k,
{
    if k <= 0 {
        Seq::empty()
    } else {
        value_list(vs, k - 1) + (if k > 1 {
            seq![',']
        } else {
            Seq::empty()
        }) + seq![' '] + value_text(vs[k - 1])
    }
}

/// `ind` repeated `level` times.
pub open spec fn indent_text(ind: Seq<char>, level: nat) -> Seq<char>
    decreases level,
{
    if level == 0 {
        Seq::empty()
    } else {
        indent_text(ind, (level - 1) as nat) + ind
    }
}

/// The text of element `k` of an array that holds no floats.
pub open spec fn element_text(a: ArrayModel, k: int) -> Seq<char> {
    match a {
        ArrayModel::Bool(v) => if v[k] {
            seq!['1']
        } else {
            seq!['0']
        },
        ArrayModel::I32(v) => signed_decimal(v[k] as int),
        ArrayModel::I64(v) => signed_decimal(v[k] as int),
        ArrayModel::U8(v) => decimal(v[k] as nat),
        ArrayModel::String(v) => quoted(v[k]),
        _ => Seq::empty(),
    }
}

/// The signed decimal text of an integer starts with a minus sign exactly
/// when the integer is negative, and the reader of integer tokens gives
/// back that integer.
pub proof fn lemma_signed_decimal_reads_back(x: int)
    requires
        i64::MIN <= x <= i64::MAX,
    ensures
        signed_decimal(x).len() > 0,
        (signed_decimal(x)[0] == '-') == (x < 0),
        i64_text(ascii_bytes(signed_decimal(x))) == Some(x as i64),
{
    let m: nat = if x < 0 {
        (-x) as nat
    } else {
        x as nat
    };
    lemma_decimal_spells(m);
    let t = signed_decimal(x);
    let b = ascii_bytes(t);
    let db = char_bytes(decimal(m));
    assert(is_digit(db[0]));
    if x < 0 {
        assert(b[0] == 0x2D);
        assert(b.subrange(1, b.len() as int) =~= db);
    } else {
        assert(b =~= db);
        assert(b.subrange(0, b.len() as int) =~= db);
        assert(t[0] != '-');
    }
}

/// Each integer element of an array is written as its signed decimal: a
/// minus sign exactly for a negative element, and text that the reader of
/// integer tokens turns back into the element.
pub proof fn lemma_integer_element_reads_back(a: ArrayModel, k: int)
    requires
        0 <= k < a.len(),
        a is I32 || a is I64 || a is U8,
    ensures
        ({
            let t = element_text(a, k);
            let x: int = match a {
                ArrayModel::I32(v) => v[k] as int,
                ArrayModel::I64(v) => v[k] as int,
                ArrayModel::U8(v) => v[k] as int,
                _ => 0,
            };
            &&& t.len() > 0
            &&& (t[0] == '-') == (x < 0)
            &&& i64_text(ascii_bytes(t)) == Some(x as i64)
        }),
{
    match a {
        ArrayModel::I32(v) => lemma_signed_decimal_reads_back(v[k] as int),
        ArrayModel::I64(v) => lemma_signed_decimal_reads_back(v[k] as int),
        ArrayModel::U8(v) => lemma_signed_decimal_reads_back(v[k] as int),
        _ => {},
    }
}

/// A boolean element is written `1` for true and `0` for false.
pub proof fn lemma_bool_element_text(v: Seq<bool>, k: int)
    requires
        0 <= k < v.len(),
    ensures
        i64_text(ascii_bytes(element_text(ArrayModel::Bool(v), k))) == Some(if v[k] {
            1i64
        } else {
            0i64
        }),
{
    lemma_signed_decimal_reads_back(if v[k] {
        1
    } else {
        0
    });
    assert(decimal(1) == seq!['1']);
    assert(decimal(0) == seq!['0']);
}

/// An integer value is written as its signed decimal, which the reader of
/// integer tokens turns back into it.
pub proof fn lemma_integer_value_reads_back(v: ValueModel)
    requires
        v is Int16 || v is Int32 || v is Int64 || v is Number,
    ensures
        ({
            let t = value_text(v);
            let x: int = match v {
                ValueModel::Int16(x) => x as int,
                ValueModel::Int32(x) => x as int,
                ValueModel::Int64(x) => x as int,
                ValueModel::Number { i, .. } => i as int,
                _ => 0,
            };
            &&& t.len() > 0
            &&& (t[0] == '-') == (x < 0)
            &&& i64_text(ascii_bytes(t)) == Some(x as i64)
        }),
{
    match v {
        ValueModel::Int16(x) => lemma_signed_decimal_reads_back(x as int),
        ValueModel::Int32(x) => lemma_signed_decimal_reads_back(x as int),
        ValueModel::Int64(x) => lemma_signed_decimal_reads_back(x as int),
        ValueModel::Number { i, .. } => lemma_signed_decimal_reads_back(i as int),
        _ => {},
    }
}

/// The first `k` elements of an array, separated by commas.
pub open spec fn element_list(a: ArrayModel, k: int) -> Seq<char>
    decreases k,
{
    if k <= 0 {
        Seq::empty()
    } else {
        element_list(a, k - 1) + (if k > 1 {
            seq![',']
        } else {
            Seq::empty()
        }) + element_text(a, k - 1)
    }
}

/// The array line of a node at indentation `level`.
pub open spec fn array_text(a: ArrayModel, ind: Seq<char>, level: nat) -> Seq<char> {
    indent_text(ind, level) + seq!['a', ':', ' '] + element_list(a, a.len() as int) + seq!['\n']
}

/// Whether a node and all below it hold no float value or float array.
pub open spec fn float_free(n: NodeModel) -> bool
    decreases n,
{
    &&& forall|k: int| 0 <= k < n.values.len() ==> !is_float(#[trigger] n.values[k])
    &&& match n.array {
        Some(a) => !(a.data is F32) && !(a.data is F64),
        None => true,
    }
    &&& all_float_free(n.children)
}

/// Whether each node of `s` is float free.
pub open spec fn all_float_free(s: Seq<NodeModel>) -> bool
    decreases s,
{
    if s.len() == 0 {
        true
    } else {
        all_float_free(s.drop_last()) && float_free(s.last())
    }
}

/// The text of a node at indentation `level`.
pub open spec fn node_text(n: NodeModel, ind: Seq<char>, level: nat) -> Seq<char>
    decreases n,
{
    indent_text(ind, level) + n.name + values_text(n.values) + if n.children.len() > 0 || n.array is Some {
        seq![' ', '{', '\n'] + (match n.array {
            Some(a) => array_text(a.data, ind, level + 1),
            None => Seq::empty(),
        }) + nodes_text(n.children, ind, level + 1) + indent_text(ind, level) + seq!['}', '\n']
    } else {
        seq!['\n']
    }
}

/// The text of nodes at indentation `level`, one after another.
pub open spec fn nodes_text(s: Seq<NodeModel>, ind: Seq<char>, level: nat) -> Seq<char>
    decreases s,
{
    if s.len() == 0 {
        Seq::empty()
    } else {
        nodes_text(s.drop_last(), ind, level) + node_text(s.last(), ind, level)
    }
}

/// The nodes of a document at indentation `level`, each followed by an
/// empty line.
pub open spec fn document_body(s: Seq<NodeModel>, ind: Seq<char>, level: nat) -> Seq<char>
    decreases s.len(),
{
    if s.len() == 0 {
        Seq::empty()
    } else {
        document_body(s.drop_last(), ind, level) + node_text(s.last(), ind, level) + seq!['\n']
    }
}

/// The first comment of a document: `FBX`, the major and minor version and
/// `.0 project file`.
pub open spec fn header_comment(version: u32) -> Seq<char> {
    seq!['F', 'B', 'X', ' '] + decimal((version / 1000) as nat) + seq!['.'] + decimal(
        ((version % 1000) / 100) as nat,
    ) + ".0 project file"@
}

/// The text of a document whose top-level nodes are `nodes`.
pub open spec fn document_text(nodes: Seq<NodeModel>, ind: Seq<char>, level: nat, version: u32) -> Seq<char> {
    comment_text(header_comment(version)) + comment_text("Created by ufbx-rust"@) + seq!['\n']
        + document_body(nodes, ind, level)
}

/// A comment line.
pub open spec fn comment_text(c: Seq<char>) -> Seq<char> {
    seq![';', ' '] + c + seq!['\n']
}

/// Writes documents as ASCII text into `writer`.
pub struct AsciiWriter {
    /// The text written so far.
    pub writer: String,
    /// Current nesting level.
    pub indent_level: usize,
    /// Text of one indentation level.
    pub indent_string: String,
    /// Format version named in the header comment.
    pub version: u32,
}

impl AsciiWriter {
    /// A writer that appends to `writer`, for format `version`, indenting
    /// each level by `indent`.
    pub fn new(writer: String, version: u32, indent: String) -> (r: Self)
        ensures
            r.writer == writer,
            r.indent_level == 0,
            r.indent_string == indent,
            r.version == version,
    {
        AsciiWriter { writer, indent_level: 0, indent_string: indent, version }
    }

    /// Writes a comment line: `; `, the comment and a line end.
    pub fn write_comment(&mut self, comment: &str) -> (r: Result<(), Error>)
        ensures
            r is Ok,
            final(self).writer@ == old(self).writer@ + comment_text(comment@),
            final(self).indent_level == old(self).indent_level,
            final(self).indent_string == old(self).indent_string,
            final(self).version == old(self).version,
    {
        push_char(&mut self.writer, ';');
        push_char(&mut self.writer, ' ');
        push_str(&mut self.writer, comment);
        push_char(&mut self.writer, '\n');
        assert(self.writer@ =~= old(self).writer@ + comment_text(comment@));
        Ok(())
    }

    /// Writes a line end.
    pub fn write_newline(&mut self) -> (r: Result<(), Error>)
        ensures
            r is Ok,
            final(self).writer@ == old(self).writer@.push('\n'),
            final(self).indent_level == old(self).indent_level,
            final(self).indent_string == old(self).indent_string,
            final(self).version == old(self).version,
    {
        push_char(&mut self.writer, '\n');
        Ok(())
    }

    /// Writes the indentation of the current level.
    pub fn write_indent(&mut self) -> (r: Result<(), Error>)
        ensures
            r is Ok,
            final(self).writer@ == old(self).writer@ + indent_text(
                old(self).indent_string@,
                old(self).indent_level as nat,
            ),
            final(self).indent_level == old(self).indent_level,
            final(self).indent_string == old(self).indent_string,
            final(self).version == old(self).version,
    {
        let mut k: usize = 0;
        while k < self.indent_level
            invariant
                k <= self.indent_level,
                self.indent_level == old(self).indent_level,
                self.indent_string == old(self).indent_string,
                self.version == old(self).version,
                self.writer@ == old(self).writer@ + indent_text(self.indent_string@, k as nat),
            decreases self.indent_level - k,
        {
            let ind = self.indent_string.as_str();
            push_str(&mut self.writer, ind);
            k = k + 1;
            assert(self.writer@ =~= old(self).writer@ + indent_text(self.indent_string@, k as nat));
        }
        Ok(())
    }
}

/// Appends `s` quoted, with each double quote escaped.
fn push_quoted(out: &mut String, s: &str)
    ensures
        final(out)@ == old(out)@ + quoted(s@),
{
    push_char(out, '"');
    let n = s.unicode_len();
    let mut i: usize = 0;
    while i < n
        invariant
            n == s@.len(),
            i <= n,
            out@ == old(out)@ + seq!['"'] + escaped(s@.subrange(0, i as int)),
        decreases n - i,
    {
        let c = s.get_char(i);
        if c == '"' {
            push_char(out, '\\');
            push_char(out, '"');
        } else {
            push_char(out, c);
        }
        proof {
            let t = s@.subrange(0, i + 1);
            assert(t.drop_last() =~= s@.subrange(0, i as int));
            assert(t.last() == c);
        }
        i = i + 1;
        assert(out@ =~= old(out)@ + seq!['"'] + escaped(s@.subrange(0, i as int)));
    }
    push_char(out, '"');
    assert(s@.subrange(0, n as int) =~= s@);
    assert(out@ =~= old(out)@ + quoted(s@));
}

/// Appends the text of a value that is not a float.
fn push_value(out: &mut String, value: &Value)
    requires
        !is_float(value@),
    ensures
        final(out)@ == old(out)@ + value_text(value@),
{
    match value {
        Value::Bool(b) => {
            if *b {
                push_char(out, '1');
            } else {
                push_char(out, '0');
            }
            assert(out@ =~= old(out)@ + value_text(value@));
        },
        Value::Int16(v) => push_signed_decimal(out, *v as i64),
        Value::Int32(v) => push_signed_decimal(out, *v as i64),
        Value::Int64(v) => push_signed_decimal(out, *v),
        Value::String(s) => push_quoted(out, s.data.as_str()),
        Value::Number { i, .. } => push_signed_decimal(out, *i),
        _ => {},
    }
}

/// Appends the text of element `k` of an array without floats.
fn push_element(out: &mut String, data: &ArrayData, k: usize)
    requires
        k < data@.len(),
        !(data@ is F32) && !(data@ is F64),
    ensures
        final(out)@ == old(out)@ + element_text(data@, k as int),
{
    match data {
        ArrayData::Bool(v) => {
            if v[k] {
                push_char(out, '1');
            } else {
                push_char(out, '0');
            }
            assert(out@ =~= old(out)@ + element_text(data@, k as int));
        },
        ArrayData::I32(v) => push_signed_decimal(out, v[k] as i64),
        ArrayData::I64(v) => push_signed_decimal(out, v[k]),
        ArrayData::U8(v) => push_decimal(out, v[k] as u64),
        ArrayData::String(v) => push_quoted(out, v[k].data.as_str()),
        _ => {},
    }
}

impl AsciiWriter {
    /// Writes a value that is not a float.
    pub fn write_value(&mut self, value: &Value) -> (r: Result<(), Error>)
        requires
            !is_float(value@),
        ensures
            r is Ok,
            final(self).writer@ == old(self).writer@ + value_text(value@),
            final(self).indent_level == old(self).indent_level,
            final(self).indent_string == old(self).indent_string,
            final(self).version == old(self).version,
    {
        push_value(&mut self.writer, value);
        Ok(())
    }

    /// Writes the array line of a node: indentation, `a: `, the elements
    /// separated by commas, and a line end.
    pub fn write_array(&mut self, array: &ValueArray) -> (r: Result<(), Error>)
        requires
            !(array@.data is F32) && !(array@.data is F64),
        ensures
            r is Ok,
            final(self).writer@ == old(self).writer@ + array_text(
                array@.data,
                old(self).indent_string@,
                old(self).indent_level as nat,
            ),
            final(self).indent_level == old(self).indent_level,
            final(self).indent_string == old(self).indent_string,
            final(self).version == old(self).version,
    {
        let _ = self.write_indent();
        push_char(&mut self.writer, 'a');
        push_char(&mut self.writer, ':');
        push_char(&mut self.writer, ' ');
        let ghost start = self.writer@;
        let n = array.data.len();
        let mut k: usize = 0;
        while k < n
            invariant
                n == array@.data.len(),
                k <= n,
                !(array@.data is F32) && !(array@.data is F64),
                self.indent_level == old(self).indent_level,
                self.indent_string == old(self).indent_string,
                self.version == old(self).version,
                self.writer@ == start + element_list(array@.data, k as int),
            decreases n - k,
        {
            if k > 0 {
                push_char(&mut self.writer, ',');
            }
            push_element(&mut self.writer, &array.data, k);
            k = k + 1;
            assert(self.writer@ =~= start + element_list(array@.data, k as int));
        }
        push_char(&mut self.writer, '\n');
        assert(self.writer@ =~= old(self).writer@ + array_text(
            array@.data,
            old(self).indent_string@,
            old(self).indent_level as nat,
        ));
        Ok(())
    }

    /// Writes the indentation, name and values of a node.
    fn write_head(&mut self, node: &FbxNode)
        requires
            float_free(node@),
        ensures
            final(self).writer@ == old(self).writer@ + indent_text(
                old(self).indent_string@,
                old(self).indent_level as nat,
            ) + node@.name + values_text(node@.values),
            final(self).indent_level == old(self).indent_level,
            final(self).indent_string == old(self).indent_string,
            final(self).version == old(self).version,
    {
        let ghost n = node@;
        let _ = self.write_indent();
        push_str(&mut self.writer, node.name.as_str());
        let ghost start = self.writer@;
        let nv = node.values.len();
        if nv > 0 {
            push_char(&mut self.writer, ':');
            let mut i: usize = 0;
            while i < nv
                invariant
                    nv == node.values@.len(),
                    n == node@,
                    i <= nv,
                    float_free(n),
                    self.indent_level == old(self).indent_level,
                    self.indent_string == old(self).indent_string,
                    self.version == old(self).version,
                    self.writer@ == start + seq![':'] + value_list(n.values, i as int),
                decreases nv - i,
            {
                if i > 0 {
                    push_char(&mut self.writer, ',');
                }
                push_char(&mut self.writer, ' ');
                assert(n.values[i as int] == node.values@[i as int]@);
                assert(!is_float(n.values[i as int]));
                push_value(&mut self.writer, &node.values[i]);
                i = i + 1;
                assert(self.writer@ =~= start + seq![':'] + value_list(n.values, i as int));
            }
        }
        assert(self.writer@ =~= start + values_text(n.values));
    }

    /// Writes the children of a node at the current level.
    fn write_children(&mut self, node: &FbxNode)
        requires
            float_free(node@),
            node@.children.len() > 0 ==> old(self).indent_level + max_depth(node@.children) <= usize::MAX,
        ensures
            final(self).writer@ == old(self).writer@ + nodes_text(
                node@.children,
                old(self).indent_string@,
                old(self).indent_level as nat,
            ),
            final(self).indent_level == old(self).indent_level,
            final(self).indent_string == old(self).indent_string,
            final(self).version == old(self).version,
        decreases node, 0int,
    {
        let ghost n = node@;
        let ghost start = self.writer@;
        proof {
            lemma_nodes_model_index(node.children@);
        }
        let mut k: usize = 0;
        while k < node.children.len()
            invariant
                n == node@,
                float_free(n),
                k <= node.children@.len(),
                n.children == nodes_model(node.children@),
                n.children.len() == node.children@.len(),
                forall|j: int| 0 <= j < n.children.len() ==> #[trigger] n.children[j] == node.children@[j]@,
                n.children.len() > 0 ==> self.indent_level + max_depth(n.children) <= usize::MAX,
                self.indent_level == old(self).indent_level,
                self.indent_string == old(self).indent_string,
                self.version == old(self).version,
                self.writer@ == start + nodes_text(n.children.subrange(0, k as int), self.indent_string@, self.indent_level as nat),
            decreases node.children@.len() - k,
        {
            proof {
                lemma_child_float_free(n.children, k as int);
                lemma_max_depth(n.children, k as int);
            }
            let _ = self.write_node(&node.children[k]);
            proof {
                let t = n.children.subrange(0, k + 1);
                assert(t.drop_last() =~= n.children.subrange(0, k as int));
                assert(t.last() == n.children[k as int]);
            }
            k = k + 1;
        }
        assert(n.children.subrange(0, n.children.len() as int) =~= n.children);
    }

    /// Writes a node and everything below it at the current level.
    #[verifier::rlimit(50)]
    #[verifier::spinoff_prover]
    pub fn write_node(&mut self, node: &FbxNode) -> (r: Result<(), Error>)
        requires
            float_free(node@),
            old(self).indent_level + depth_of(node@) <= usize::MAX,
        ensures
            r is Ok,
            final(self).writer@ == old(self).writer@ + node_text(
                node@,
                old(self).indent_string@,
                old(self).indent_level as nat,
            ),
            final(self).indent_level == old(self).indent_level,
            final(self).indent_string == old(self).indent_string,
            final(self).version == old(self).version,
        decreases node, 1int,
    {
        let ghost n = node@;
        self.write_head(node);
        let ghost head = self.writer@;
        let has_content = node.children.len() > 0 || node.array.is_some();
        if has_content {
            push_char(&mut self.writer, ' ');
            push_char(&mut self.writer, '{');
            push_char(&mut self.writer, '\n');
            let level = self.indent_level;
            self.indent_level = level + 1;
            let ghost before_array = self.writer@;
            match &node.array {
                Some(a) => {
                    let _ = self.write_array(a);
                },
                None => {},
            }
            let ghost after_array = self.writer@;
            self.write_children(node);
            let ghost after_children = self.writer@;
            self.indent_level = level;
            let _ = self.write_indent();
            push_char(&mut self.writer, '}');
            push_char(&mut self.writer, '\n');
            proof {
                let inner = (match n.array {
                    Some(a) => array_text(a.data, self.indent_string@, (level + 1) as nat),
                    None => Seq::empty(),
                });
                assert(after_array == before_array + inner);
                assert(self.writer@ =~= head + (seq![' ', '{', '\n'] + inner + nodes_text(
                    n.children,
                    self.indent_string@,
                    (level + 1) as nat,
                ) + indent_text(self.indent_string@, level as nat) + seq!['}', '\n']));
            }
        } else {
            push_char(&mut self.writer, '\n');
        }
        assert(self.writer@ =~= old(self).writer@ + node_text(
            n,
            old(self).indent_string@,
            old(self).indent_level as nat,
        ));
        Ok(())
    }
}

impl AsciiWriter {
    /// Writes a document: the header comments, an empty line, and each
    /// top-level node followed by an empty line.
    pub fn write_document(&mut self, doc: &FbxDocument) -> (r: Result<(), Error>)
        requires
            all_float_free(doc@.root.children),
            doc@.root.children.len() > 0 ==> old(self).indent_level + max_depth(doc@.root.children)
                <= usize::MAX,
        ensures
            r is Ok,
            final(self).writer@ == old(self).writer@ + document_text(
                doc@.root.children,
                old(self).indent_string@,
                old(self).indent_level as nat,
                old(self).version,
            ),
            final(self).indent_level == old(self).indent_level,
            final(self).indent_string == old(self).indent_string,
            final(self).version == old(self).version,
    {
        let mut header = String::new();
        push_str(&mut header, "FBX ");
        push_decimal(&mut header, (self.version / 1000) as u64);
        push_char(&mut header, '.');
        push_decimal(&mut header, ((self.version % 1000) / 100) as u64);
        push_str(&mut header, ".0 project file");
        proof {
            reveal_strlit("FBX ");
            assert(header@ =~= header_comment(self.version));
        }
        let _ = self.write_comment(header.as_str());
        let _ = self.write_comment("Created by ufbx-rust");
        let _ = self.write_newline();
        let ghost start = self.writer@;
        let ghost kids = doc@.root.children;
        let children = &doc.root.children;
        proof {
            lemma_nodes_model_index(children@);
        }
        let mut k: usize = 0;
        while k < children.len()
            invariant
                kids == doc@.root.children,
                kids == nodes_model(children@),
                kids.len() == children@.len(),
                forall|j: int| 0 <= j < kids.len() ==> #[trigger] kids[j] == children@[j]@,
                all_float_free(kids),
                kids.len() > 0 ==> self.indent_level + max_depth(kids) <= usize::MAX,
                k <= children@.len(),
                self.indent_level == old(self).indent_level,
                self.indent_string == old(self).indent_string,
                self.version == old(self).version,
                self.writer@ == start + document_body(kids.subrange(0, k as int), self.indent_string@, self.indent_level as nat),
            decreases children@.len() - k,
        {
            proof {
                lemma_child_float_free(kids, k as int);
                lemma_max_depth(kids, k as int);
            }
            let _ = self.write_node(&children[k]);
            let _ = self.write_newline();
            proof {
                let t = kids.subrange(0, k + 1);
                assert(t.drop_last() =~= kids.subrange(0, k as int));
                assert(t.last() == kids[k as int]);
            }
            k = k + 1;
        }
        assert(kids.subrange(0, kids.len() as int) =~= kids);
        assert(self.writer@ =~= old(self).writer@ + document_text(
            kids,
            old(self).indent_string@,
            old(self).indent_level as nat,
            old(self).version,
        ));
        Ok(())
    }
}

/// Writes a document in the ASCII format with the version and indentation
/// of `opts`, and gives the UTF-8 bytes of the text.
pub fn write_ascii(doc: &FbxDocument, opts: &SaveOpts) -> (r: Result<Vec<u8>, Error>)
    requires
        all_float_free(doc@.root.children),
        max_depth(doc@.root.children) <= usize::MAX,
    ensures
        r matches Ok(bytes) && bytes@ == encode_utf8(
            document_text(doc@.root.children, opts.ascii_indent@, 0, opts.version),
        ),
{
    let mut writer = AsciiWriter::new(String::new(), opts.version, opts.ascii_indent.clone());
    let _ = writer.write_document(doc);
    let bytes = writer.writer.as_str().as_bytes_vec();
    Ok(bytes)
}

/// How many levels of indentation a node's text goes below its own: none
/// for a node without children or array.
pub open spec fn depth_of(n: NodeModel) -> nat
    decreases n,
{
    if n.children.len() == 0 && n.array is None {
        0
    } else {
        1 + max_depth(n.children)
    }
}

/// The largest depth among nodes.
pub open spec fn max_depth(s: Seq<NodeModel>) -> nat
    decreases s,
{
    if s.len() == 0 {
        0
    } else {
        let a = max_depth(s.drop_last());
        let b = depth_of(s.last());
        if a >= b {
            a
        } else {
            b
        }
    }
}

/// A child of a node is no deeper than the node less one level.
proof fn lemma_child_depth(n: NodeModel, k: int)
    requires
        0 <= k < n.children.len(),
    ensures
        depth_of(n.children[k]) + 1 <= depth_of(n),
{
    lemma_max_depth(n.children, k);
}

/// Each node is at most as deep as the deepest.
proof fn lemma_max_depth(s: Seq<NodeModel>, k: int)
    requires
        0 <= k < s.len(),
    ensures
        depth_of(s[k]) <= max_depth(s),
    decreases s.len(),
{
    if k < s.len() - 1 {
        lemma_max_depth(s.drop_last(), k);
        assert(s.drop_last()[k] == s[k]);
    }
}

/// Each child of a float-free node list is float free.
proof fn lemma_child_float_free(s: Seq<NodeModel>, k: int)
    requires
        all_float_free(s),
        0 <= k < s.len(),
    ensures
        float_free(s[k]),
    decreases s.len(),
{
    if k < s.len() - 1 {
        lemma_child_float_free(s.drop_last(), k);
        assert(s.drop_last()[k] == s[k]);
    }
}

} // verus!
