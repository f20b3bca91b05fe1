use vstd::prelude::*;

verus! {

/// The characters that `char::is_whitespace` accepts: Unicode's White_Space.
pub open spec fn is_space(c: char) -> bool {
    let u = c as u32;
    ||| 0x09 <= u <= 0x0D
    ||| u == 0x20
    ||| u == 0x85
    ||| u == 0xA0
    ||| u == 0x1680
    ||| 0x2000 <= u <= 0x200A
    ||| u == 0x2028
    ||| u == 0x2029
    ||| u == 0x202F
    ||| u == 0x205F
    ||| u == 0x3000
}

/// The pieces of a text between line feeds, the last one included even when
/// empty.
pub open spec fn split_lines(t: Seq<char>) -> Seq<Seq<char>>
    decreases t.len(),
{
    if t.len() == 0 {
        seq![Seq::empty()]
    } else {
        let prev = split_lines(t.drop_last());
        if t.last() == '\n' {
            prev.push(Seq::empty())
        } else {
            prev.update(prev.len() - 1, prev.last().push(t.last()))
        }
    }
}

/// The fields of a line: its maximal runs of non-whitespace characters.
pub open spec fn fields(l: Seq<char>) -> Seq<Seq<char>>
    decreases l.len(),
{
    if l.len() == 0 {
        Seq::empty()
    } else {
        let prev = fields(l.drop_last());
        let c = l.last();
        if is_space(c) {
            prev
        } else if l.len() >= 2 && !is_space(l[l.len() - 2]) {
            prev.update(prev.len() - 1, prev.last().push(c))
        } else {
            prev.push(seq![c])
        }
    }
}

/// The second field of a line, where the key stands in `<algorithm> <base64>
/// [comment]`.
pub open spec fn second_field(l: Seq<char>) -> Option<Seq<char>> {
    if fields(l).len() >= 2 {
        Some(fields(l)[1])
    } else {
        None
    }
}

/// What data_encoding's BASE64_MIME decodes from a text.
pub uninterp spec fn base64_mime_decoded(s: Seq<char>) -> Option<Seq<u8>>;

/// The name `ssh-ed25519` in bytes.
pub open spec fn ed25519_name() -> Seq<u8> {
    seq![115u8, 115, 104, 45, 101, 100, 50, 53, 53, 49, 57]
}

/// What precedes an Ed25519 key in SSH wire form: the name `ssh-ed25519`
/// and the key's length, each as a 32-bit big-endian length prefix and its
/// bytes.
pub open spec fn ed25519_header() -> Seq<u8> {
    seq![0u8, 0, 0, 11] + ed25519_name() + seq![0u8, 0, 0, 32]
}

/// The SSH wire form of the Ed25519 public key that a blob starts with: the
/// header, then the 32 bytes of the key. Any bytes after it are ignored.
pub open spec fn ed25519_key(blob: Seq<u8>) -> Option<Seq<u8>> {
    if blob.len() >= 51 && blob.subrange(0, 19) == ed25519_header() {
        Some(blob.subrange(0, 51))
    } else {
        None
    }
}

/// The key of one line of an authorized-keys text, if the line is well
/// formed.
pub open spec fn entry_key(line: Seq<char>) -> Option<Seq<u8>> {
    match second_field(line) {
        Some(f) => match base64_mime_decoded(f) {
            Some(blob) => ed25519_key(blob),
            None => None,
        },
        None => None,
    }
}

/// The keys of the well-formed lines, in order; other lines are skipped.
pub open spec fn keys_of_lines(ls: Seq<Seq<char>>) -> Seq<Seq<u8>>
    decreases ls.len(),
{
    if ls.len() == 0 {
        Seq::empty()
    } else {
        let prev = keys_of_lines(ls.drop_last());
        match entry_key(ls.last()) {
            Some(k) => prev.push(k),
            None => prev,
        }
    }
}

/// The keys that an authorized-keys text grants access to.
pub open spec fn authorized_keys_of(text: Seq<char>) -> Seq<Seq<u8>> {
    keys_of_lines(split_lines(text))
}

proof fn lemma_split_lines_nonempty(t: Seq<char>)
    ensures
        split_lines(t).len() >= 1,
    decreases t.len(),
{
    if t.len() > 0 {
        lemma_split_lines_nonempty(t.drop_last());
    }
}

proof fn lemma_fields_len(l: Seq<char>)
    ensures
        fields(l).len() <= l.len(),
        l.len() > 0 && !is_space(l.last()) ==> fields(l).len() >= 1,
    decreases l.len(),
{
    if l.len() > 0 {
        lemma_fields_len(l.drop_last());
    }
}

proof fn lemma_keys_of_lines_members(ls: Seq<Seq<char>>, key: Seq<u8>)
    ensures
        keys_of_lines(ls).contains(key) <==> exists|i: int|
            0 <= i < ls.len() && entry_key(#[trigger] ls[i]) == Some(key),
    decreases ls.len(),
{
    if ls.len() > 0 {
        let prev = ls.drop_last();
        lemma_keys_of_lines_members(prev, key);
        let kp = keys_of_lines(prev);
        let last = (ls.len() - 1) as int;
        if keys_of_lines(ls).contains(key) {
            let j = choose|j: int| 0 <= j < keys_of_lines(ls).len() && keys_of_lines(ls)[j] == key;
            if j < kp.len() {
                assert(kp[j] == key);
                assert(kp.contains(key));
                let i = choose|i: int| 0 <= i < prev.len() && entry_key(#[trigger] prev[i]) == Some(key);
                assert(ls[i] == prev[i]);
            } else {
                assert(entry_key(ls[last]) == Some(key));
            }
        }
        if exists|i: int| 0 <= i < ls.len() && entry_key(#[trigger] ls[i]) == Some(key) {
            let i = choose|i: int| 0 <= i < ls.len() && entry_key(#[trigger] ls[i]) == Some(key);
            if i < last {
                assert(prev[i] == ls[i]);
                let j = choose|j: int| 0 <= j < kp.len() && kp[j] == key;
                assert(keys_of_lines(ls)[j] == key);
            } else {
                assert(keys_of_lines(ls) == kp.push(key));
                assert(keys_of_lines(ls)[kp.len() as int] == key);
            }
        }
    }
}

/// A key belongs to the set read from a text exactly when some line of the
/// text is a well-formed entry whose key bytes are exactly that key: a line
/// that is not well formed contributes nothing, and never stops the reading
/// of the lines after it.
pub proof fn lemma_membership_is_entry_equality(text: Seq<char>, key: Seq<u8>)
    ensures
        authorized_keys_of(text).contains(key) <==> exists|i: int|
            0 <= i < split_lines(text).len() && entry_key(#[trigger] split_lines(text)[i]) == Some(
                key,
            ),
{
    lemma_keys_of_lines_members(split_lines(text), key);
}

/// Relies on data_encoding's BASE64_MIME.decode: the bytes that a base64 text
/// encodes, or an error when it is not valid base64; a function of the text
/// alone.
#[verifier::external_body]
fn decode_base64(field: &Vec<char>) -> (r: Option<Vec<u8>>)
    ensures
        match r {
            Some(b) => base64_mime_decoded(field@) == Some(b@),
            None => base64_mime_decoded(field@) is None,
        },
{
    let text: String = field.iter().collect();
    data_encoding::BASE64_MIME.decode(text.as_bytes()).ok()
}

/// The characters of a text, in order.
fn text_chars(text: &str) -> (r: Vec<char>)
    ensures
        r@ == text@,
{
    let mut out: Vec<char> = Vec::new();
    for c in it: text.chars()
        invariant
            it.seq() == text@,
            out@ == it.seq().take(it.index() as int),
    {
        out.push(c);
    }
    out
}

fn is_space_char(c: char) -> (r: bool)
    ensures
        r == is_space(c),
{
    let u = c as u32;
    (0x09 <= u && u <= 0x0D) || u == 0x20 || u == 0x85 || u == 0xA0 || u == 0x1680 || (0x2000
        <= u && u <= 0x200A) || u == 0x2028 || u == 0x2029 || u == 0x202F || u == 0x205F || u
        == 0x3000
}

/// The second whitespace-separated field of a line.
pub fn second_field_of(line: &Vec<char>) -> (r: Option<Vec<char>>)
    ensures
        match r {
            Some(f) => second_field(line@) == Some(f@),
            None => second_field(line@) is None,
        },
{
    let mut count: usize = 0;
    let mut second: Vec<char> = Vec::new();
    let mut i: usize = 0;
    while i < line.len()
        invariant
            i <= line.len(),
            count <= i,
            count == fields(line@.take(i as int)).len(),
            count >= 2 ==> second@ == fields(line@.take(i as int))[1],
        decreases line.len() - i,
    {
        let c = line[i];
        let ghost before = line@.take(i as int);
        let ghost after = line@.take(i + 1);
        assert(after.drop_last() =~= before);
        proof {
            lemma_fields_len(before);
        }
        if is_space_char(c) {
        } else if i >= 1 && !is_space_char(line[i - 1]) {
            if count == 2 {
                second.push(c);
            }
        } else {
            count = count + 1;
            if count == 2 {
                second = Vec::new();
                second.push(c);
                assert(second@ =~= seq![c]);
            }
        }
        i = i + 1;
    }
    assert(line@.take(line.len() as int) =~= line@);
    if count >= 2 {
        Some(second)
    } else {
        None
    }
}

/// The Ed25519 public key, in SSH wire form, that a decoded key blob starts
/// with.
pub fn ed25519_key_of(blob: &Vec<u8>) -> (r: Option<Vec<u8>>)
    ensures
        match r {
            Some(k) => ed25519_key(blob@) == Some(k@),
            None => ed25519_key(blob@) is None,
        },
{
    if blob.len() < 51 {
        return None;
    }
    let header: Vec<u8> = vec![0u8, 0, 0, 11, 115, 115, 104, 45, 101, 100, 50, 53, 53, 49, 57, 0, 0, 0, 32];
    assert(header@ =~= ed25519_header());
    let mut i: usize = 0;
    while i < 19
        invariant
            i <= 19,
            blob@.len() >= 51,
            header@ == ed25519_header(),
            forall|j: int| 0 <= j < i ==> blob@[j] == header@[j],
        decreases 19 - i,
    {
        if blob[i] != header[i] {
            assert(blob@.subrange(0, 19)[i as int] != ed25519_header()[i as int]);
            return None;
        }
        i = i + 1;
    }
    assert(blob@.subrange(0, 19) =~= ed25519_header());
    let mut key: Vec<u8> = Vec::new();
    let mut j: usize = 0;
    while j < 51
        invariant
            j <= 51,
            blob@.len() >= 51,
            key@ == blob@.subrange(0, j as int),
        decreases 51 - j,
    {
        key.push(blob[j]);
        j = j + 1;
        assert(key@ =~= blob@.subrange(0, j as int));
    }
    Some(key)
}

/// The key of one line of an authorized-keys text.
fn line_key(line: &Vec<char>) -> (r: Option<Vec<u8>>)
    ensures
        match r {
            Some(k) => entry_key(line@) == Some(k@),
            None => entry_key(line@) is None,
        },
{
    match second_field_of(line) {
        Some(field) => match decode_base64(&field) {
            Some(blob) => ed25519_key_of(&blob),
            None => None,
        },
        None => None,
    }
}

fn bytes_equal(a: &Vec<u8>, b: &[u8]) -> (r: bool)
    ensures
        r == (a@ == b@),
{
    if a.len() != b.len() {
        return false;
    }
    let mut i: usize = 0;
    while i < a.len()
        invariant
            i <= a.len(),
            a@.len() == b@.len(),
            forall|j: int| 0 <= j < i ==> a@[j] == b@[j],
        decreases a.len() - i,
    {
        if a[i] != b[i] {
            return false;
        }
        i = i + 1;
    }
    assert(a@ =~= b@);
    true
}

/// The public keys that the server accepts, built once from the
/// authorized-keys text and never changed afterwards. Each key is held in
/// SSH wire form, and membership is byte equality.
pub struct AuthorizedKeySet {
    keys: Vec<Vec<u8>>,
}

impl View for AuthorizedKeySet {
    type V = Seq<Seq<u8>>;

    closed spec fn view(&self) -> Seq<Seq<u8>> {
        self.keys@.map_values(|k: Vec<u8>| k@)
    }
}

impl AuthorizedKeySet {
    /// The set that accepts no one.
    pub fn empty() -> (r: Self)
        ensures
            r@ == Seq::<Seq<u8>>::empty(),
    {
        let r = AuthorizedKeySet { keys: Vec::new() };
        assert(r@ =~= Seq::<Seq<u8>>::empty());
        r
    }

    /// Reads the lines `<algorithm> <base64-key> [comment]` of an
    /// authorized-keys text; a line without a well-formed key is skipped.
    pub fn parse(text: &str) -> (r: Self)
        ensures
            r@ == authorized_keys_of(text@),
    {
        let chars = text_chars(text);
        let mut keys: Vec<Vec<u8>> = Vec::new();
        let mut cur: Vec<char> = Vec::new();
        let mut i: usize = 0;
        proof {
            lemma_split_lines_nonempty(chars@.take(0));
            assert(chars@.take(0) =~= Seq::<char>::empty());
            assert(keys@.map_values(|k: Vec<u8>| k@) =~= Seq::<Seq<u8>>::empty());
            assert(split_lines(chars@.take(0)).drop_last() =~= Seq::<Seq<char>>::empty());
        }
        while i < chars.len()
            invariant
                i <= chars.len(),
                chars@ == text@,
                split_lines(chars@.take(i as int)).len() >= 1,
                cur@ == split_lines(chars@.take(i as int)).last(),
                keys@.map_values(|k: Vec<u8>| k@) == keys_of_lines(
                    split_lines(chars@.take(i as int)).drop_last(),
                ),
            decreases chars.len() - i,
        {
            let c = chars[i];
            let ghost before = split_lines(chars@.take(i as int));
            let ghost old_keys = keys@.map_values(|k: Vec<u8>| k@);
            assert(chars@.take(i + 1).drop_last() =~= chars@.take(i as int));
            proof {
                lemma_split_lines_nonempty(chars@.take(i + 1));
            }
            if c == '\n' {
                let ghost after = split_lines(chars@.take(i + 1));
                assert(after.drop_last() =~= before);
                assert(before.drop_last().push(before.last()) =~= before);
                match line_key(&cur) {
                    Some(k) => {
                        keys.push(k);
                        assert(keys@.map_values(|k: Vec<u8>| k@) =~= old_keys.push(k@));
                    },
                    None => {},
                }
                cur = Vec::new();
                assert(cur@ =~= after.last());
            } else {
                cur.push(c);
                let ghost after = split_lines(chars@.take(i + 1));
                assert(after.drop_last() =~= before.drop_last());
            }
            i = i + 1;
        }
        assert(chars@.take(chars.len() as int) =~= chars@);
        let ghost lines = split_lines(chars@);
        assert(lines.drop_last().push(lines.last()) =~= lines);
        let ghost old_keys = keys@.map_values(|k: Vec<u8>| k@);
        match line_key(&cur) {
            Some(k) => {
                keys.push(k);
                assert(keys@.map_values(|k: Vec<u8>| k@) =~= old_keys.push(k@));
            },
            None => {},
        }
        AuthorizedKeySet { keys }
    }

    /// Whether a presented key, in SSH wire form, is one of the set's keys.
    pub fn contains(&self, key: &[u8]) -> (r: bool)
        ensures
            r == self@.contains(key@),
    {
        let mut i: usize = 0;
        while i < self.keys.len()
            invariant
                i <= self.keys.len(),
                forall|j: int| 0 <= j < i ==> self@[j] != key@,
            decreases self.keys.len() - i,
        {
            if bytes_equal(&self.keys[i], key) {
                assert(self@[i as int] == key@);
                return true;
            }
            i = i + 1;
        }
        false
    }

    /// The number of keys.
    pub fn len(&self) -> (r: usize)
        ensures
            r == self@.len(),
    {
        self.keys.len()
    }
}

} // verus!
