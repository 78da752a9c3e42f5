//! A line that is being typed.
use vstd::prelude::*;
use vstd::string::*;
use vstd::utf8::*;

use crate::secret::SecretBytes;
use crate::text::utf8_text;

verus! {

/// The longest line, in bytes.
pub const MAX_LINE: usize = 4096;

// ---------------------------------------------------------------------------------------------
// UTF-8
// ---------------------------------------------------------------------------------------------
/// The encoding of a text is that of its parts.
pub proof fn lemma_encode_concat(a: Seq<char>, b: Seq<char>)
    ensures
        encode_utf8(a + b) == encode_utf8(a) + encode_utf8(b),
    decreases a.len(),
{
    if a.len() == 0 {
        assert(a + b =~= b);
        assert(encode_utf8(a) + encode_utf8(b) =~= encode_utf8(b));
    } else {
        lemma_encode_concat(a.drop_first(), b);
        assert((a + b).drop_first() =~= a.drop_first() + b);
        assert(encode_utf8(a + b) =~= encode_utf8(a) + encode_utf8(b));
    }
}

/// The encoding of one character.
pub open spec fn char_bytes(c: char) -> Seq<u8> {
    encode_scalar(c as u32)
}

/// The encoding of a character is a leading byte and up to three continuation bytes.
proof fn lemma_char_bytes(c: char)
    ensures
        encode_utf8(seq![c]) == char_bytes(c),
        1 <= char_bytes(c).len() <= 4,
        !is_continuation_byte(char_bytes(c)[0]),
        forall|i: int|
            1 <= i < char_bytes(c).len() ==> is_continuation_byte(#[trigger] char_bytes(c)[i]),
        char_bytes(c).len() == leading_width(char_bytes(c)[0]),
{
    let one = seq![c];
    assert(one.drop_first() =~= Seq::empty());
    assert(encode_utf8(one.drop_first()) =~= Seq::empty());
    assert(encode_utf8(one) =~= char_bytes(c));
    encode_utf8_first_scalar(one);
}

/// How many bytes a character has that begins with a byte.
pub open spec fn leading_width(byte: u8) -> nat {
    if byte < 0x80 {
        1
    } else if byte < 0xe0 {
        2
    } else if byte < 0xf0 {
        3
    } else {
        4
    }
}

// ---------------------------------------------------------------------------------------------
// The line
// ---------------------------------------------------------------------------------------------
/// A line with a cursor: what stands before it, and what behind.
#[verifier::ext_equal]
pub struct EditView {
    pub before: Seq<char>,
    pub after: Seq<char>,
}

impl EditView {
    /// The whole text.
    pub open spec fn text(self) -> Seq<char> {
        self.before + self.after
    }

    /// The number of bytes of the text.
    pub open spec fn size(self) -> nat {
        encode_utf8(self.text()).len()
    }

    /// A text fits at the cursor.
    pub open spec fn has_room(self, text: Seq<char>) -> bool {
        self.size() + encode_utf8(text).len() <= MAX_LINE
    }

    /// With a text at the cursor.
    pub open spec fn with(self, text: Seq<char>) -> EditView {
        EditView { before: self.before + text, after: self.after }
    }

    /// With the cursor one character to the left.
    pub open spec fn left(self) -> EditView {
        if self.before.len() == 0 {
            self
        } else {
            EditView {
                before: self.before.drop_last(),
                after: seq![self.before.last()] + self.after,
            }
        }
    }

    /// With the cursor one character to the right.
    pub open spec fn right(self) -> EditView {
        if self.after.len() == 0 {
            self
        } else {
            EditView { before: self.before.push(self.after[0]), after: self.after.skip(1) }
        }
    }

    /// Without the character behind the cursor.
    pub open spec fn deleted(self) -> EditView {
        if self.after.len() == 0 {
            self
        } else {
            EditView { before: self.before, after: self.after.skip(1) }
        }
    }

    /// Without the character before the cursor.
    pub open spec fn erased(self) -> EditView {
        if self.before.len() == 0 {
            self
        } else {
            EditView { before: self.before.drop_last(), after: self.after }
        }
    }

    /// A text in place of the line, if it is not too long.
    pub open spec fn replaced(text: Seq<char>) -> EditView {
        EditView {
            before: if encode_utf8(text).len() <= MAX_LINE {
                text
            } else {
                Seq::empty()
            },
            after: Seq::empty(),
        }
    }
}

/// A line that is being typed, in UTF-8, with a cursor between two characters.
pub struct EditLine {
    bytes: SecretBytes,
    cursor: usize,
}

impl EditLine {
    /// The bytes of the line.
    pub closed spec fn bytes(&self) -> Seq<u8> {
        self.bytes@
    }

    /// How many bytes stand before the cursor.
    pub closed spec fn cursor_bytes(&self) -> nat {
        self.cursor as nat
    }

    /// The line is text, not too long, and the cursor stands between two characters.
    pub open spec fn wf(&self) -> bool {
        &&& self.bytes().len() <= MAX_LINE
        &&& self.cursor_bytes() <= self.bytes().len()
        &&& valid_utf8(self.bytes().take(self.cursor_bytes() as int))
        &&& valid_utf8(self.bytes().skip(self.cursor_bytes() as int))
    }

    /// Takes apart what the representation says.
    proof fn lemma_view(&self)
        requires
            self.wf(),
        ensures
            encode_utf8(self@.before) == self.bytes@.take(self.cursor as int),
            encode_utf8(self@.after) == self.bytes@.skip(self.cursor as int),
            encode_utf8(self@.text()) == self.bytes@,
            self.bytes@ == encode_utf8(self@.before) + encode_utf8(self@.after),
            self@.size() == self.bytes@.len(),
            self.cursor == encode_utf8(self@.before).len(),
    {
        decode_utf8_encode_utf8(self.bytes@.take(self.cursor as int));
        decode_utf8_encode_utf8(self.bytes@.skip(self.cursor as int));
        lemma_encode_concat(self@.before, self@.after);
        assert(self.bytes@ =~= self.bytes@.take(self.cursor as int) + self.bytes@.skip(
            self.cursor as int,
        ));
    }

    /// Puts together what the representation has to say.
    proof fn lemma_is(&self, view: EditView)
        requires
            self.bytes@ == encode_utf8(view.before) + encode_utf8(view.after),
            self.cursor == encode_utf8(view.before).len(),
            self.bytes@.len() <= MAX_LINE,
        ensures
            self.wf(),
            self@ == view,
    {
        assert(self.bytes@.take(self.cursor as int) =~= encode_utf8(view.before));
        assert(self.bytes@.skip(self.cursor as int) =~= encode_utf8(view.after));
        encode_utf8_valid_utf8(view.before);
        encode_utf8_valid_utf8(view.after);
        encode_utf8_decode_utf8(view.before);
        encode_utf8_decode_utf8(view.after);
    }

    /// An empty line, with room for the longest.
    pub fn new() -> (line: Self)
        ensures
            line.wf(),
            line@ == (EditView { before: Seq::empty(), after: Seq::empty() }),
    {
        let line = EditLine { bytes: SecretBytes::new(Vec::with_capacity(MAX_LINE)), cursor: 0 };
        proof {
            let empty = EditView { before: Seq::empty(), after: Seq::empty() };
            assert(line.bytes@ =~= encode_utf8(empty.before) + encode_utf8(empty.after));
            line.lemma_is(empty);
        }
        line
    }

    /// The text of the line.
    pub fn text(&self) -> (text: &str)
        requires
            self.wf(),
        ensures
            text@ == self@.text(),
    {
        proof {
            self.lemma_view();
            encode_utf8_valid_utf8(self@.text());
            encode_utf8_decode_utf8(self@.text());
        }
        match utf8_text(self.bytes.as_slice()) {
            Ok(text) => {
                proof {
                    encode_utf8_decode_utf8(text@);
                }
                text
            },
            Err(_) => "",
        }
    }

    /// The number of bytes of the line.
    pub fn len(&self) -> (n: usize)
        requires
            self.wf(),
        ensures
            n == self@.size(),
            n == 0 <==> self@.text().len() == 0,
    {
        proof {
            self.lemma_view();
            if self@.text().len() > 0 {
                lemma_char_bytes(self@.text()[0]);
            }
        }
        self.bytes.len()
    }

    /// How many bytes there is room for. It stays what it was when the line was made, so that no
    /// typed byte is left behind in memory that the line no longer holds; that is how vectors grow,
    /// and nothing is proved of it.
    pub fn capacity(&self) -> (n: usize)
        requires
            self.wf(),
        ensures
            n >= self@.size(),
    {
        proof {
            self.lemma_view();
        }
        self.bytes.capacity()
    }

    /// How many bytes stand before the cursor.
    pub fn cursor(&self) -> (n: usize)
        requires
            self.wf(),
        ensures
            n == encode_utf8(self@.before).len(),
    {
        proof {
            self.lemma_view();
        }
        self.cursor
    }

    /// Puts a text in place of the line, with the cursor behind it. One that is too long leaves the
    /// line empty.
    pub fn replace(&mut self, text: &str)
        ensures
            final(self).wf(),
            final(self)@ == EditView::replaced(text@),
    {
        self.bytes.wipe();
        self.cursor = 0;
        let ghost empty = EditView { before: Seq::empty(), after: Seq::empty() };
        proof {
            assert(self.bytes@ =~= encode_utf8(empty.before) + encode_utf8(empty.after));
            self.lemma_is(empty);
            assert(empty.text() =~= Seq::empty());
            assert(empty.before + text@ =~= text@);
        }
        let _ = self.insert(text);
    }

    /// Puts a text at the cursor, if it fits.
    pub fn insert(&mut self, text: &str) -> (done: bool)
        requires
            old(self).wf(),
        ensures
            final(self).wf(),
            done == old(self)@.has_room(text@),
            final(self)@ == if done {
                old(self)@.with(text@)
            } else {
                old(self)@
            },
    {
        proof {
            self.lemma_view();
        }
        let len: usize = self.bytes.len();
        let added = text.as_bytes();
        if added.len() > MAX_LINE - len {
            return false;
        }
        let ghost before = self@;
        self.bytes.insert_at(self.cursor, added);
        self.cursor = self.cursor + added.len();
        proof {
            let after = before.with(text@);
            lemma_encode_concat(before.before, text@);
            assert(self.bytes@ =~= encode_utf8(after.before) + encode_utf8(after.after));
            self.lemma_is(after);
        }
        true
    }

    /// Moves the cursor one character to the left.
    pub fn left(&mut self)
        requires
            old(self).wf(),
        ensures
            final(self).wf(),
            final(self)@ == old(self)@.left(),
    {
        proof {
            self.lemma_view();
        }
        if self.cursor == 0 {
            proof {
                if self@.before.len() > 0 {
                    lemma_char_bytes(self@.before[0]);
                }
            }
            return ;
        }
        let ghost old_view = self@;
        let ghost last = self@.before.last();
        let ghost front = self@.before.drop_last();
        proof {
            if self@.before.len() == 0 {
                assert(encode_utf8(self@.before).len() == 0);
            }
            assert(self@.before =~= front + seq![last]);
            lemma_encode_concat(front, seq![last]);
            lemma_char_bytes(last);
        }
        let ghost start = encode_utf8(front).len();
        let ghost bytes = self.bytes@;
        let mut at: usize = self.cursor - 1;
        assert forall|k: int| 0 <= k < char_bytes(last).len() implies bytes[start + k]
            == #[trigger] char_bytes(last)[k] by {
            assert(bytes[start + k] == bytes.take(self.cursor as int)[start + k]);
        }
        while is_continuation(self.bytes.as_slice()[at])
            invariant
                self.bytes@ == bytes,
                start <= at < bytes.len(),
                at < start + char_bytes(last).len(),
                !is_continuation_byte(char_bytes(last)[0]),
                forall|k: int|
                    0 <= k < char_bytes(last).len() ==> bytes[start + k]
                        == #[trigger] char_bytes(last)[k],
            decreases at,
        {
            assert(bytes[at as int] == char_bytes(last)[at - start]);
            at -= 1;
        }
        proof {
            assert(bytes[at as int] == char_bytes(last)[at - start]);
        }
        self.cursor = at;
        proof {
            let new = old_view.left();
            lemma_encode_concat(seq![last], old_view.after);
            assert(self.bytes@ =~= encode_utf8(new.before) + encode_utf8(new.after));
            self.lemma_is(new);
        }
    }

    /// How many bytes the character behind the cursor has.
    fn width(&self) -> (n: usize)
        requires
            self.wf(),
        ensures
            n == 0 <==> self@.after.len() == 0,
            self@.after.len() > 0 ==> n == char_bytes(self@.after[0]).len() && encode_utf8(
                self@.after,
            ) == char_bytes(self@.after[0]) + encode_utf8(self@.after.skip(1)),
            self.cursor + n <= self.bytes@.len(),
    {
        proof {
            self.lemma_view();
        }
        if self.cursor == self.bytes.len() {
            proof {
                if self@.after.len() > 0 {
                    lemma_char_bytes(self@.after[0]);
                }
            }
            return 0;
        }
        proof {
            if self@.after.len() == 0 {
                assert(encode_utf8(self@.after).len() == 0);
            }
            let first = self@.after[0];
            lemma_char_bytes(first);
            assert(self@.after =~= seq![first] + self@.after.skip(1));
            lemma_encode_concat(seq![first], self@.after.skip(1));
            assert(self.bytes@[self.cursor as int] == encode_utf8(self@.after)[0]);
        }
        let byte: u8 = self.bytes.as_slice()[self.cursor];
        if byte < 0x80 {
            1
        } else if byte < 0xe0 {
            2
        } else if byte < 0xf0 {
            3
        } else {
            4
        }
    }

    /// Moves the cursor one character to the right.
    pub fn right(&mut self)
        requires
            old(self).wf(),
        ensures
            final(self).wf(),
            final(self)@ == old(self)@.right(),
    {
        let n: usize = self.width();
        if n == 0 {
            return ;
        }
        let ghost old_view = self@;
        proof {
            self.lemma_view();
        }
        self.cursor = self.cursor + n;
        proof {
            let new = old_view.right();
            let first = old_view.after[0];
            lemma_char_bytes(first);
            assert(new.before =~= old_view.before + seq![first]);
            lemma_encode_concat(old_view.before, seq![first]);
            assert(self.bytes@ =~= encode_utf8(new.before) + encode_utf8(new.after));
            self.lemma_is(new);
        }
    }

    /// Deletes the character behind the cursor.
    pub fn delete(&mut self)
        requires
            old(self).wf(),
        ensures
            final(self).wf(),
            final(self)@ == old(self)@.deleted(),
    {
        let n: usize = self.width();
        if n == 0 {
            return ;
        }
        let ghost old_view = self@;
        proof {
            self.lemma_view();
        }
        self.bytes.remove_at(self.cursor, n);
        proof {
            let new = old_view.deleted();
            assert(self.bytes@ =~= encode_utf8(new.before) + encode_utf8(new.after));
            self.lemma_is(new);
        }
    }

    /// Deletes the character before the cursor.
    pub fn backspace(&mut self)
        requires
            old(self).wf(),
        ensures
            final(self).wf(),
            final(self)@ == old(self)@.erased(),
    {
        proof {
            self.lemma_view();
            if self@.before.len() > 0 {
                lemma_char_bytes(self@.before[0]);
            }
        }
        if self.cursor > 0 {
            let ghost view = self@;
            proof {
                if view.before.len() == 0 {
                    assert(encode_utf8(view.before).len() == 0);
                }
            }
            self.left();
            self.delete();
            assert(view.left().deleted().after =~= view.after);
        }
    }

    /// The bytes that show the line behind a prompt, with the cursor at its place.
    pub fn redraw(&self, prompt: &str) -> (output: SecretBytes)
        requires
            self.wf(),
        ensures
            output@ == redrawn(prompt@, self@),
    {
        proof {
            self.lemma_view();
            if self@.after.len() > 0 {
                lemma_char_bytes(self@.after[0]);
            } else {
                assert(encode_utf8(self@.after).len() == 0);
            }
        }
        let mut output = SecretBytes::new(Vec::with_capacity(MAX_LINE + 64));
        output.push(0x0d);
        output.push(0x1b);
        output.push(0x5b);
        output.push(0x32);
        output.push(0x4b);
        assert(output@ =~= seq![0x0du8, 0x1bu8, 0x5bu8, 0x32u8, 0x4bu8]);
        output.extend_from_slice(prompt.as_bytes());
        let bytes = self.bytes.as_slice();
        output.extend_from_slice(&bytes[0..self.cursor]);
        assert(bytes@.subrange(0, self.cursor as int) =~= encode_utf8(self@.before));
        if self.cursor < bytes.len() {
            output.push(0x1b);
            output.push(0x37);
            output.extend_from_slice(&bytes[self.cursor..bytes.len()]);
            assert(bytes@.subrange(self.cursor as int, bytes@.len() as int) =~= encode_utf8(
                self@.after,
            ));
            output.push(0x1b);
            output.push(0x38);
        }
        assert(output@ =~= redrawn(prompt@, self@));
        output
    }
}

impl View for EditLine {
    type V = EditView;

    open spec fn view(&self) -> EditView {
        EditView {
            before: decode_utf8(self.bytes().take(self.cursor_bytes() as int)),
            after: decode_utf8(self.bytes().skip(self.cursor_bytes() as int)),
        }
    }
}

/// The bytes that show a line behind a prompt: the line is cleared and written; what stands behind
/// the cursor is written between saving and restoring its place.
pub open spec fn redrawn(prompt: Seq<char>, line: EditView) -> Seq<u8> {
    let front = seq![0x0du8, 0x1bu8, 0x5bu8, 0x32u8, 0x4bu8] + encode_utf8(prompt) + encode_utf8(
        line.before,
    );
    if line.after.len() > 0 {
        front + seq![0x1bu8, 0x37u8] + encode_utf8(line.after) + seq![0x1bu8, 0x38u8]
    } else {
        front
    }
}

fn is_continuation(byte: u8) -> (yes: bool)
    ensures
        yes == is_continuation_byte(byte),
{
    0x80 <= byte && byte <= 0xbf
}

// ---------------------------------------------------------------------------------------------
// Laws
// ---------------------------------------------------------------------------------------------
/// Moving the cursor never changes the text, and moving back undoes it.
pub proof fn moving_keeps_the_text(line: EditView)
    ensures
        line.left().text() == line.text(),
        line.right().text() == line.text(),
        line.before.len() > 0 ==> line.left().right() == line,
        line.after.len() > 0 ==> line.right().left() == line,
{
    assert(line.left().text() =~= line.text());
    assert(line.right().text() =~= line.text());
    if line.before.len() > 0 {
        assert(line.left().right() =~= line);
    }
    if line.after.len() > 0 {
        assert(line.right().left() =~= line);
    }
}

/// Erasing a character that was just typed undoes it.
pub proof fn erasing_undoes_typing(line: EditView, c: char)
    ensures
        line.with(seq![c]).erased() == line,
{
    assert(line.with(seq![c]).erased() =~= line);
}

/// Typing puts the text between what stands before the cursor and what stands behind it, and leaves
/// the cursor behind the text.
pub proof fn typing_goes_in_at_the_cursor(line: EditView, text: Seq<char>)
    ensures
        line.with(text).text() == line.before + text + line.after,
        line.with(text).before == line.before + text,
        line.with(text).after == line.after,
{
    assert(line.with(text).text() =~= line.before + text + line.after);
}

/// Deleting takes the character behind the cursor, and erasing the one before it: each is the other
/// after a step over the character.
pub proof fn deleting_and_erasing_mirror_each_other(line: EditView)
    ensures
        line.after.len() > 0 ==> line.deleted() == line.right().erased(),
        line.before.len() > 0 ==> line.erased() == line.left().deleted(),
        line.after.len() == 0 ==> line.deleted() == line && line.right() == line,
        line.before.len() == 0 ==> line.erased() == line && line.left() == line,
        line.after.len() > 0 ==> line.deleted().text() == line.before + line.after.skip(1),
        line.before.len() > 0 ==> line.erased().text() == line.before.drop_last() + line.after,
{
    if line.after.len() > 0 {
        assert(line.deleted() =~= line.right().erased());
    }
    if line.before.len() > 0 {
        assert(line.erased() =~= line.left().deleted());
    }
}

} // verus!
