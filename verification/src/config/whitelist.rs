use alloy_primitives::hex::FromHex;
use vstd::prelude::*;
use vstd::slice::slice_subrange;

use crate::db::types::Address;

verus! {

/// The addresses that may register without a payment.
#[derive(Debug, PartialEq, Eq)]
pub struct WhitelistConfig {
    /// The file that lists the addresses, one on each line
    pub file: Option<String>,
    /// The addresses, once they are loaded
    pub whitelist: Option<Vec<Address>>,
}

/// Why a whitelist file cannot be read. Lines are counted from 0.
#[derive(Clone, Copy, Debug, PartialEq, Eq, Structural)]
pub enum WhitelistError {
    /// The line holds nothing but white space
    EmptyLine(usize),
    /// The first word of the line is no address
    InvalidAddress(usize),
}

/// The byte is white space: a blank, or one of tab, line feed, vertical tab,
/// form feed and carriage return.
pub open spec fn is_space(c: u8) -> bool {
    c == 32 || 9 <= c <= 13
}

/// The value of a hexadecimal digit, in either case.
pub open spec fn hex_value(c: u8) -> Option<u8> {
    if 48 <= c <= 57 {
        Some((c - 48) as u8)
    } else if 97 <= c <= 102 {
        Some((c - 87) as u8)
    } else if 65 <= c <= 70 {
        Some((c - 55) as u8)
    } else {
        None
    }
}

/// The word without the `0x` or `0X` that it may begin with.
pub open spec fn strip_hex_prefix(word: Seq<u8>) -> Seq<u8> {
    if word.len() >= 2 && word[0] == 48 && (word[1] == 120 || word[1] == 88) {
        word.subrange(2, word.len() as int)
    } else {
        word
    }
}

/// The word is an address in hexadecimal: 40 digits, after `0x` or not.
pub open spec fn is_hex_address(word: Seq<u8>) -> bool {
    let digits = strip_hex_prefix(word);
    digits.len() == 40 && forall|i: int| 0 <= i < 40 ==> hex_value(#[trigger] digits[i]) is Some
}

/// The 20 bytes that the digits of the word stand for, two digits a byte.
pub open spec fn hex_address(word: Seq<u8>) -> Seq<u8> {
    let digits = strip_hex_prefix(word);
    Seq::new(
        20,
        |i: int| (hex_value(digits[2 * i])->0 * 16 + hex_value(digits[2 * i + 1])->0) as u8,
    )
}

/// The number of bytes from `from` up to the next line feed or the end of
/// the text.
pub open spec fn line_len(text: Seq<u8>, from: int) -> nat
    decreases text.len() - from,
{
    if from < 0 || from >= text.len() || text[from] == 10 {
        0
    } else {
        1 + line_len(text, from + 1)
    }
}

/// The place at which the line that begins at `from` ends: that of the next
/// line feed, or the end of the text.
pub open spec fn line_stop(text: Seq<u8>, from: int) -> int {
    from + line_len(text, from)
}

/// The place of the first byte at or after `from` and before `end` that is
/// no white space, or `end`.
pub open spec fn word_start(text: Seq<u8>, from: int, end: int) -> int
    decreases end - from,
{
    if from >= end {
        end
    } else if !is_space(text[from]) {
        from
    } else {
        word_start(text, from + 1, end)
    }
}

/// The place of the first white space at or after `from` and before `end`,
/// or `end`.
pub open spec fn word_end(text: Seq<u8>, from: int, end: int) -> int
    decreases end - from,
{
    if from >= end {
        end
    } else if is_space(text[from]) {
        from
    } else {
        word_end(text, from + 1, end)
    }
}

/// `first`, and then what `rest` holds, unless `rest` is an error.
pub open spec fn and_then(first: Seq<u8>, rest: Result<Seq<Seq<u8>>, WhitelistError>) -> Result<
    Seq<Seq<u8>>,
    WhitelistError,
> {
    match rest {
        Ok(list) => Ok(seq![first] + list),
        Err(e) => Err(e),
    }
}

/// The addresses of the lines of `text` from byte `from` on, where the line
/// at `from` is line number `line`. A line ends at a line feed or at the
/// end of the text, and its address is its first word, the rest of the line
/// being a comment. The first line that holds no word or whose first word is
/// no address is an error.
pub open spec fn parsed_from(text: Seq<u8>, from: int, line: int) -> Result<
    Seq<Seq<u8>>,
    WhitelistError,
>
    decreases text.len() - from,
{
    if from < 0 || from >= text.len() {
        Ok(Seq::empty())
    } else {
        let end = line_stop(text, from);
        let start = word_start(text, from, end);
        let word = text.subrange(start, word_end(text, start, end));
        if start >= end {
            Err(WhitelistError::EmptyLine(line as usize))
        } else if !is_hex_address(word) {
            Err(WhitelistError::InvalidAddress(line as usize))
        } else if end >= text.len() {
            Ok(seq![hex_address(word)])
        } else {
            and_then(hex_address(word), parsed_from(text, end + 1, line + 1))
        }
    }
}

/// The addresses that a whitelist file with this text lists.
pub open spec fn parsed_whitelist(text: Seq<u8>) -> Result<Seq<Seq<u8>>, WhitelistError> {
    parsed_from(text, 0, 0)
}

/// The bytes of each address.
pub open spec fn address_bytes(addresses: Seq<Address>) -> Seq<Seq<u8>> {
    Seq::new(addresses.len(), |i: int| addresses[i]@)
}

/// `alloy_primitives::Address::from_hex`, to which its `from_str` hands the
/// text on: the address that the word stands for in hexadecimal. The word
/// may begin with `0x` or `0X`, must then hold exactly 40 digits, in either
/// case, and no checksum is looked at. Every other word gives `None`.
#[verifier::external_body]
fn parse_address(word: &[u8]) -> (r: Option<Address>)
    ensures
        r is Some <==> is_hex_address(word@),
        r matches Some(a) ==> a@ == hex_address(word@),
{
    alloy_primitives::Address::from_hex(word).ok().map(|a| Address(a.0.0))
}

/// Reads the text of a whitelist file: one address on each line, as the
/// line's first word in hexadecimal, with whatever follows it on the line
/// left aside.
pub fn parse_whitelist(text: &[u8]) -> (r: Result<Vec<Address>, WhitelistError>)
    ensures
        match r {
            Ok(list) => parsed_whitelist(text@) == Ok::<Seq<Seq<u8>>, WhitelistError>(
                address_bytes(list@),
            ),
            Err(e) => parsed_whitelist(text@) == Err::<Seq<Seq<u8>>, WhitelistError>(e),
        },
{
    let n = text.len();
    let mut list: Vec<Address> = Vec::new();
    let mut from: usize = 0;
    let mut line: usize = 0;
    while from < n
        invariant
            n == text@.len(),
            0 <= line <= from <= n,
            match parsed_from(text@, from as int, line as int) {
                Ok(rest) => parsed_whitelist(text@) == Ok::<Seq<Seq<u8>>, WhitelistError>(
                    address_bytes(list@) + rest,
                ),
                Err(e) => parsed_whitelist(text@) == Err::<Seq<Seq<u8>>, WhitelistError>(e),
            },
        decreases n - from,
    {
        let mut end = from;
        while end < n && text[end] != 10
            invariant
                n == text@.len(),
                from <= end <= n,
                line_stop(text@, from as int) == line_stop(text@, end as int),
            decreases n - end,
        {
            end += 1;
        }
        let mut start = from;
        while start < end && is_space_byte(text[start])
            invariant
                from <= start <= end <= n,
                n == text@.len(),
                word_start(text@, from as int, end as int) == word_start(
                    text@,
                    start as int,
                    end as int,
                ),
            decreases end - start,
        {
            start += 1;
        }
        if start >= end {
            return Err(WhitelistError::EmptyLine(line));
        }
        let mut stop = start;
        while stop < end && !is_space_byte(text[stop])
            invariant
                start <= stop <= end <= n,
                n == text@.len(),
                word_end(text@, start as int, end as int) == word_end(
                    text@,
                    stop as int,
                    end as int,
                ),
            decreases end - stop,
        {
            stop += 1;
        }
        let word = slice_subrange(text, start, stop);
        match parse_address(word) {
            None => {
                return Err(WhitelistError::InvalidAddress(line));
            },
            Some(a) => {
                let ghost before = address_bytes(list@);
                list.push(a);
                proof {
                    assert(address_bytes(list@) =~= before + seq![a@]);
                    if end < n {
                        match parsed_from(text@, end + 1, line + 1) {
                            Ok(r) => {
                                assert(before + (seq![a@] + r) =~= address_bytes(list@) + r);
                            },
                            Err(e) => {},
                        }
                    } else {
                        assert(parsed_from(text@, n as int, line + 1) == Ok::<
                            Seq<Seq<u8>>,
                            WhitelistError,
                        >(Seq::empty()));
                        assert(before + seq![a@] =~= address_bytes(list@) + Seq::<
                            Seq<u8>,
                        >::empty());
                    }
                }
            },
        }
        from = if end < n {
            end + 1
        } else {
            n
        };
        line += 1;
    }
    proof {
        let rest = parsed_from(text@, from as int, line as int);
        assert(rest == Ok::<Seq<Seq<u8>>, WhitelistError>(Seq::empty()));
        assert(address_bytes(list@) + Seq::<Seq<u8>>::empty() =~= address_bytes(list@));
    }
    Ok(list)
}

/// Whether the byte is white space.
fn is_space_byte(c: u8) -> (r: bool)
    ensures
        r == is_space(c),
{
    c == 32 || (9 <= c && c <= 13)
}

impl WhitelistConfig {
    /// The whitelist is loaded and holds `addr`.
    pub open spec fn lists(&self, addr: Address) -> bool {
        self.whitelist matches Some(w) && w@.contains(addr)
    }

    pub fn is_whitelisted(&self, addr: &Address) -> (r: bool)
        ensures
            r == self.lists(*addr),
    {
        match &self.whitelist {
            Some(w) => {
                let mut i: usize = 0;
                while i < w.len()
                    invariant
                        self.whitelist == Some(*w),
                        0 <= i <= w@.len(),
                        forall|k: int| 0 <= k < i ==> w@[k] != *addr,
                    decreases w@.len() - i,
                {
                    if w[i].same(addr) {
                        assert(w@[i as int] == *addr);
                        return true;
                    }
                    i += 1;
                }
                false
            },
            None => false,
        }
    }

    /// The file whose text `preload` is to be given: the configured file,
    /// unless the addresses are loaded already.
    pub fn file_to_load(&self) -> (file: Option<&String>)
        ensures
            file is Some <==> self.whitelist is None && self.file is Some,
            file matches Some(f) ==> self.file == Some(*f),
    {
        match (&self.whitelist, &self.file) {
            (None, Some(f)) => Some(f),
            _ => None,
        }
    }

    /// Loads the addresses from the text of the whitelist file, unless they
    /// are loaded already. On an error nothing changes.
    pub fn preload(&mut self, text: &[u8]) -> (r: Result<(), WhitelistError>)
        ensures
            final(self).file == old(self).file,
            old(self).whitelist is Some ==> r is Ok && final(self).whitelist == old(self).whitelist,
            old(self).whitelist is None ==> match parsed_whitelist(text@) {
                Ok(list) => {
                    &&& r is Ok
                    &&& final(self).whitelist matches Some(w)
                    &&& address_bytes(w@) == list
                },
                Err(e) => r == Err::<(), WhitelistError>(e) && final(self).whitelist is None,
            },
    {
        if self.whitelist.is_some() {
            return Ok(());
        }
        match parse_whitelist(text) {
            Ok(list) => {
                self.whitelist = Some(list);
                Ok(())
            },
            Err(e) => Err(e),
        }
    }

    /// A whitelist of the given addresses, with no file behind it.
    pub fn for_test(whitelist: Vec<Address>) -> (config: WhitelistConfig)
        ensures
            config.file is None,
            config.whitelist == Some(whitelist),
    {
        WhitelistConfig { file: None, whitelist: Some(whitelist) }
    }
}

} // verus!
