//! Analysis configuration: launch dimensions, parameter values, and the
//! input/output arrays that define the kernel's memory interface.

use vstd::prelude::*;
use vstd::string::*;

use crate::eval::fp8::decode_f64_bits;
use crate::text::{hex_text, push_hex};

verus! {

/// Value bound to a kernel parameter, positional by declaration order.
#[derive(Debug)]
pub enum ParamValue {
    /// Concrete integer (also used for raw pointer values)
    Int(i64),
    /// Concrete float, as the bits of an IEEE double
    Float(u64),
    /// Symbolic float input with the given name (e.g. "alpha")
    SymFloat(String),
    /// Pointer to a named array from [`AnalysisConfig::arrays`]
    ArrayPtr(String),
}

/// Whether an array is a kernel input (pre-initialized with fresh symbols),
/// an output (extracted after execution), or both.
#[derive(Debug, Clone, Copy, PartialEq, Eq, Structural)]
pub enum ArrayKind {
    Input,
    Output,
    InputOutput,
    /// An input of concrete integers where element i holds the value i. For
    /// index arrays that feed addressing.
    IndexInput,
}

impl ArrayKind {
    pub open spec fn spec_is_input(self) -> bool {
        self == ArrayKind::Input || self == ArrayKind::InputOutput || self == ArrayKind::IndexInput
    }

    #[verifier::when_used_as_spec(spec_is_input)]
    pub fn is_input(self) -> (r: bool)
        ensures
            r == self.spec_is_input(),
    {
        match self {
            ArrayKind::Input | ArrayKind::InputOutput | ArrayKind::IndexInput => true,
            ArrayKind::Output => false,
        }
    }

    pub open spec fn spec_is_output(self) -> bool {
        self == ArrayKind::Output || self == ArrayKind::InputOutput
    }

    #[verifier::when_used_as_spec(spec_is_output)]
    pub fn is_output(self) -> (r: bool)
        ensures
            r == self.spec_is_output(),
    {
        match self {
            ArrayKind::Output | ArrayKind::InputOutput => true,
            _ => false,
        }
    }
}

/// A global-memory array visible to the kernel.
///
/// Input arrays are pre-populated with named symbols `name[0]`, `name[1]`,
/// ... at granule width `elem_width`. Bases must not fall in the reserved
/// module-global region.
#[derive(Debug)]
pub struct ArrayDef {
    pub name: String,
    pub base: u64,
    /// Element width in bytes (2 for f16, 4 for f32/int, 8 for f64)
    pub elem_width: u64,
    /// Number of elements
    pub len: u64,
    pub kind: ArrayKind,
}

impl ArrayDef {
    /// Size of the array in bytes.
    pub open spec fn bytes(&self) -> int {
        self.elem_width * self.len
    }

    /// First address past the array.
    pub open spec fn end(&self) -> int {
        self.base + self.bytes()
    }

    /// A nonempty array of whole, naturally aligned elements that ends within
    /// the address space.
    pub open spec fn wf(&self) -> bool {
        &&& self.elem_width > 0
        &&& self.len > 0
        &&& self.end() <= u64::MAX
        &&& self.base % self.elem_width == 0
    }

    pub fn size_bytes(&self) -> (r: u64)
        requires
            self.bytes() <= u64::MAX,
        ensures
            r == self.bytes(),
    {
        self.elem_width * self.len
    }

    fn wide_end(&self) -> (r: u128)
        ensures
            r == self.end(),
    {
        proof {
            assert(self.elem_width * self.len <= 0xffff_ffff_ffff_ffff * 0xffff_ffff_ffff_ffff)
                by (nonlinear_arith)
                requires
                    self.elem_width <= 0xffff_ffff_ffff_ffff,
                    self.len <= 0xffff_ffff_ffff_ffff,
            ;
            assert(self.elem_width * self.len >= 0) by (nonlinear_arith);
        }
        self.base as u128 + self.elem_width as u128 * self.len as u128
    }
}

/// Full configuration for analyzing one kernel.
#[derive(Debug)]
pub struct AnalysisConfig {
    /// Threads per block; the CTA under analysis is block (0,0,0)
    pub block_dim: (u32, u32, u32),
    /// Grid dimensions (only used for `%nctaid`)
    pub grid_dim: (u32, u32, u32),
    /// Parameter values in declaration order
    pub params: Vec<ParamValue>,
    /// Global-memory arrays
    pub arrays: Vec<ArrayDef>,
    /// Concrete values for module-scope `.global` variables, by PTX name
    pub global_values: Vec<(String, i64)>,
    /// Size of dynamic (extern) shared memory in bytes
    pub dynamic_shared_bytes: u64,
    /// Abort analysis after this many executed instructions
    pub max_instructions: u64,
}

/// Whether a name contains a bracket.
pub open spec fn has_bracket(name: Seq<char>) -> bool {
    exists|i: int| 0 <= i < name.len() && (#[trigger] name[i] == '[' || name[i] == ']')
}

fn contains_bracket(name: &String) -> (r: bool)
    ensures
        r == has_bracket(name@),
{
    let s = name.as_str();
    let n: usize = s.unicode_len();
    let mut i: usize = 0;
    while i < n
        invariant
            i <= n,
            n == s@.len(),
            s@ == name@,
            forall|j: int| 0 <= j < i ==> #[trigger] name@[j] != '[' && name@[j] != ']',
        decreases n - i,
    {
        let c = s.get_char(i);
        if c == '[' || c == ']' {
            assert(name@[i as int] == '[' || name@[i as int] == ']');
            return true;
        }
        i = i + 1;
    }
    false
}

// ---------------------------------------------------------------------------
// Messages
// ---------------------------------------------------------------------------

pub open spec fn zero_size_text(name: Seq<char>) -> Seq<char> {
    "array '"@ + name + "' has zero element width or length"@
}

pub open spec fn array_overflow_text(name: Seq<char>) -> Seq<char> {
    "array '"@ + name + "' overflows the address space"@
}

pub open spec fn misaligned_base_text(name: Seq<char>) -> Seq<char> {
    "array '"@ + name + "' has a base that is not a multiple of its element width"@
}

pub open spec fn duplicate_array_text(name: Seq<char>) -> Seq<char> {
    "two arrays share the name '"@ + name
        + "'; array names are identities and must be unique"@
}

pub open spec fn overlap_text(a: ArrayDef, b: ArrayDef) -> Seq<char> {
    "arrays '"@ + a.name@ + "' and '"@ + b.name@ + "' overlap in memory (["@ + hex_text(
        a.base as nat,
    ) + ", "@ + hex_text(a.end() as nat) + ") vs ["@ + hex_text(b.base as nat) + ", "@ + hex_text(
        b.end() as nat,
    ) + "))"@
}

pub open spec fn empty_name_text() -> Seq<char> {
    "sym: parameter name is empty"@
}

pub open spec fn bracket_text(name: Seq<char>) -> Seq<char> {
    "sym: parameter name '"@ + name
        + "' contains brackets; bracketed names are reserved for array elements"@
}

pub open spec fn duplicate_param_text(name: Seq<char>) -> Seq<char> {
    "two sym: parameters share the name '"@ + name
        + "'; parameter names are identities and must be unique (a duplicate would silently constrain the check to inputs where both parameters are equal)"@
}

pub open spec fn nan_param_text() -> Seq<char> {
    "float parameter is NaN"@
}

fn quoted(before: &str, name: &String, after: &str) -> (r: String)
    ensures
        r@ == before@ + name@ + after@,
{
    let mut s = String::from_str(before);
    s.append(name.as_str());
    s.append(after);
    s
}

fn overlap_message(a: &ArrayDef, b: &ArrayDef) -> (r: String)
    ensures
        r@ == overlap_text(*a, *b),
{
    let mut s = String::from_str("arrays '");
    s.append(a.name.as_str());
    s.append("' and '");
    s.append(b.name.as_str());
    s.append("' overlap in memory ([");
    push_hex(&mut s, a.base as u128);
    s.append(", ");
    push_hex(&mut s, a.wide_end());
    s.append(") vs [");
    push_hex(&mut s, b.base as u128);
    s.append(", ");
    push_hex(&mut s, b.wide_end());
    s.append("))");
    s
}

// ---------------------------------------------------------------------------
// Validation
// ---------------------------------------------------------------------------

/// Whether two arrays occupy a common byte.
pub open spec fn overlaps(a: ArrayDef, b: ArrayDef) -> bool {
    a.base < b.end() && b.base < a.end()
}

/// What is wrong with the pair of an array and a later one.
pub open spec fn pair_error(a: ArrayDef, b: ArrayDef) -> Option<Seq<char>> {
    if a.name@ == b.name@ {
        Some(duplicate_array_text(a.name@))
    } else if overlaps(a, b) {
        Some(overlap_text(a, b))
    } else {
        None
    }
}

/// The first error of `a` with an array from position `j` on.
pub open spec fn later_error(a: ArrayDef, arrays: Seq<ArrayDef>, j: int) -> Option<Seq<char>>
    decreases arrays.len() - j,
{
    if j >= arrays.len() {
        None
    } else {
        match pair_error(a, arrays[j]) {
            Some(e) => Some(e),
            None => later_error(a, arrays, j + 1),
        }
    }
}

/// What is wrong with one array by itself.
pub open spec fn array_error(a: ArrayDef) -> Option<Seq<char>> {
    if a.elem_width == 0 || a.len == 0 {
        Some(zero_size_text(a.name@))
    } else if a.end() > u64::MAX {
        Some(array_overflow_text(a.name@))
    } else if a.base % a.elem_width != 0 {
        Some(misaligned_base_text(a.name@))
    } else {
        None
    }
}

/// The first error of the arrays from position `i` on.
pub open spec fn arrays_error(arrays: Seq<ArrayDef>, i: int) -> Option<Seq<char>>
    decreases arrays.len() - i,
{
    if i >= arrays.len() {
        None
    } else {
        match array_error(arrays[i]) {
            Some(e) => Some(e),
            None => match later_error(arrays[i], arrays, i + 1) {
                Some(e) => Some(e),
                None => arrays_error(arrays, i + 1),
            },
        }
    }
}

/// Whether one of the first `n` parameters is a symbol of the given name.
pub open spec fn names_earlier(params: Seq<ParamValue>, n: int, name: Seq<char>) -> bool {
    exists|j: int| 0 <= j < n && is_sym_named(#[trigger] params[j], name)
}

pub open spec fn is_sym_named(p: ParamValue, name: Seq<char>) -> bool {
    p matches ParamValue::SymFloat(other) && other@ == name
}

/// What is wrong with the parameter at position `i`.
pub open spec fn param_error(params: Seq<ParamValue>, i: int) -> Option<Seq<char>> {
    match params[i] {
        ParamValue::SymFloat(name) => if name@.len() == 0 {
            Some(empty_name_text())
        } else if has_bracket(name@) {
            Some(bracket_text(name@))
        } else if names_earlier(params, i, name@) {
            Some(duplicate_param_text(name@))
        } else {
            None
        },
        ParamValue::Float(b) => if decode_f64_bits(b) is None {
            Some(nan_param_text())
        } else {
            None
        },
        _ => None,
    }
}

/// The first error of the parameters from position `i` on.
pub open spec fn params_error(params: Seq<ParamValue>, i: int) -> Option<Seq<char>>
    decreases params.len() - i,
{
    if i >= params.len() {
        None
    } else {
        match param_error(params, i) {
            Some(e) => Some(e),
            None => params_error(params, i + 1),
        }
    }
}

impl AnalysisConfig {
    pub fn new(block_dim: (u32, u32, u32)) -> (r: Self)
        ensures
            r.block_dim == block_dim,
            r.grid_dim == (1u32, 1u32, 1u32),
            r.params@.len() == 0,
            r.arrays@.len() == 0,
            r.global_values@.len() == 0,
            r.dynamic_shared_bytes == 0,
            r.max_instructions == 2_000_000_000,
    {
        AnalysisConfig {
            block_dim,
            grid_dim: (1, 1, 1),
            params: Vec::new(),
            arrays: Vec::new(),
            global_values: Vec::new(),
            dynamic_shared_bytes: 0,
            max_instructions: 2_000_000_000,
        }
    }

    /// Number of threads of a block.
    pub open spec fn threads(&self) -> int {
        self.block_dim.0 * self.block_dim.1 * self.block_dim.2
    }

    pub fn num_threads(&self) -> (r: u32)
        requires
            self.block_dim.0 * self.block_dim.1 <= u32::MAX,
            self.threads() <= u32::MAX,
        ensures
            r == self.threads(),
    {
        proof {
            assert(self.block_dim.0 * self.block_dim.1 >= 0) by (nonlinear_arith);
            assert(self.block_dim.0 * self.block_dim.1 * self.block_dim.2 >= 0) by (
                nonlinear_arith);
        }
        self.block_dim.0 * self.block_dim.1 * self.block_dim.2
    }

    /// Position of the first array of the given name from `i` on.
    pub open spec fn array_index(&self, name: Seq<char>, i: int) -> int
        decreases self.arrays@.len() - i,
    {
        if i >= self.arrays@.len() {
            self.arrays@.len() as int
        } else if self.arrays@[i].name@ == name {
            i
        } else {
            self.array_index(name, i + 1)
        }
    }

    /// The first array of the given name.
    pub fn array(&self, name: &str) -> (r: Option<&ArrayDef>)
        ensures
            match r {
                Some(a) => self.array_index(name@, 0) < self.arrays@.len() && *a
                    == self.arrays@[self.array_index(name@, 0)],
                None => self.array_index(name@, 0) == self.arrays@.len(),
            },
    {
        let wanted = String::from_str(name);
        let mut i: usize = 0;
        while i < self.arrays.len()
            invariant
                i <= self.arrays@.len(),
                wanted@ == name@,
                self.array_index(name@, 0) == self.array_index(name@, i as int),
            decreases self.arrays@.len() - i,
        {
            if self.arrays[i].name == wanted {
                return Some(&self.arrays[i]);
            }
            i = i + 1;
        }
        None
    }

    /// The output arrays among the first `n`, in declaration order.
    pub open spec fn outputs(&self, n: int) -> Seq<ArrayDef>
        decreases n,
    {
        if n <= 0 {
            Seq::empty()
        } else if self.arrays@[n - 1].kind.is_output() {
            self.outputs(n - 1).push(self.arrays@[n - 1])
        } else {
            self.outputs(n - 1)
        }
    }

    /// Names of the declared output arrays, in declaration order.
    pub fn output_array_names(&self) -> (r: Vec<String>)
        ensures
            r@ == self.outputs(self.arrays@.len() as int).map_values(|a: ArrayDef| a.name),
    {
        let mut r: Vec<String> = Vec::new();
        let mut i: usize = 0;
        assert(r@ =~= self.outputs(0).map_values(|a: ArrayDef| a.name));
        while i < self.arrays.len()
            invariant
                i <= self.arrays@.len(),
                r@ == self.outputs(i as int).map_values(|a: ArrayDef| a.name),
            decreases self.arrays@.len() - i,
        {
            if self.arrays[i].kind.is_output() {
                r.push(self.arrays[i].name.clone());
            }
            i = i + 1;
            assert(r@ =~= self.outputs(i as int).map_values(|a: ArrayDef| a.name));
        }
        r
    }

    /// What is wrong with the configuration.
    pub open spec fn error(&self) -> Option<Seq<char>> {
        match arrays_error(self.arrays@, 0) {
            Some(e) => Some(e),
            None => params_error(self.params@, 0),
        }
    }

    /// Reject configs whose identities are ambiguous: array names and `sym:`
    /// parameter names define which values correlate, so duplicate names or
    /// overlapping ranges would silently conflate distinct values. Also
    /// rejected are arrays that leave the address space or are not naturally
    /// aligned, and NaN parameters.
    pub fn validate(&self) -> (r: Result<(), String>)
        ensures
            match r {
                Ok(_) => self.error() is None,
                Err(e) => self.error() == Some(e@),
            },
    {
        let mut i: usize = 0;
        while i < self.arrays.len()
            invariant
                i <= self.arrays@.len(),
                arrays_error(self.arrays@, 0) == arrays_error(self.arrays@, i as int),
            decreases self.arrays@.len() - i,
        {
            let a = &self.arrays[i];
            if a.elem_width == 0 || a.len == 0 {
                return Err(quoted("array '", &a.name, "' has zero element width or length"));
            }
            if a.wide_end() > u64::MAX as u128 {
                return Err(quoted("array '", &a.name, "' overflows the address space"));
            }
            if a.base % a.elem_width != 0 {
                return Err(
                    quoted(
                        "array '",
                        &a.name,
                        "' has a base that is not a multiple of its element width",
                    ),
                );
            }
            let mut j: usize = i + 1;
            while j < self.arrays.len()
                invariant
                    i < j <= self.arrays@.len(),
                    i < self.arrays@.len(),
                    *a == self.arrays@[i as int],
                    array_error(*a) is None,
                    arrays_error(self.arrays@, 0) == arrays_error(self.arrays@, i as int),
                    later_error(*a, self.arrays@, i + 1) == later_error(
                        *a,
                        self.arrays@,
                        j as int,
                    ),
                decreases self.arrays@.len() - j,
            {
                let b = &self.arrays[j];
                if a.name == b.name {
                    return Err(
                        quoted(
                            "two arrays share the name '",
                            &a.name,
                            "'; array names are identities and must be unique",
                        ),
                    );
                }
                let a_end: u128 = a.wide_end();
                let b_end: u128 = b.wide_end();
                if (a.base as u128) < b_end && (b.base as u128) < a_end {
                    return Err(overlap_message(a, b));
                }
                j = j + 1;
            }
            i = i + 1;
        }
        let mut i: usize = 0;
        while i < self.params.len()
            invariant
                i <= self.params@.len(),
                arrays_error(self.arrays@, 0) is None,
                params_error(self.params@, 0) == params_error(self.params@, i as int),
            decreases self.params@.len() - i,
        {
            match &self.params[i] {
                ParamValue::SymFloat(name) => {
                    if name.as_str().unicode_len() == 0 {
                        return Err(String::from_str("sym: parameter name is empty"));
                    }
                    if contains_bracket(name) {
                        return Err(
                            quoted(
                                "sym: parameter name '",
                                name,
                                "' contains brackets; bracketed names are reserved for array elements",
                            ),
                        );
                    }
                    if self.sym_named_before(i, name) {
                        return Err(
                            quoted(
                                "two sym: parameters share the name '",
                                name,
                                "'; parameter names are identities and must be unique (a duplicate would silently constrain the check to inputs where both parameters are equal)",
                            ),
                        );
                    }
                },
                ParamValue::Float(b) => {
                    if decode_f64_bits(*b).is_none() {
                        return Err(String::from_str("float parameter is NaN"));
                    }
                },
                _ => {},
            }
            i = i + 1;
        }
        Ok(())
    }

    /// Whether a parameter before position `n` is a symbol of the given name.
    fn sym_named_before(&self, n: usize, name: &String) -> (r: bool)
        requires
            n <= self.params@.len(),
        ensures
            r == names_earlier(self.params@, n as int, name@),
    {
        let mut j: usize = 0;
        while j < n
            invariant
                j <= n <= self.params@.len(),
                forall|k: int| 0 <= k < j ==> !is_sym_named(#[trigger] self.params@[k], name@),
            decreases n - j,
        {
            match &self.params[j] {
                ParamValue::SymFloat(other) => {
                    if *other == *name {
                        assert(is_sym_named(self.params@[j as int], name@));
                        return true;
                    }
                },
                _ => {},
            }
            j = j + 1;
        }
        false
    }
}

// ---------------------------------------------------------------------------
// Laws
// ---------------------------------------------------------------------------

/// A valid configuration has well-formed, pairwise disjoint arrays of
/// distinct names.
pub proof fn valid_arrays_are_distinct(c: AnalysisConfig, i: int, j: int)
    requires
        c.error() is None,
        0 <= i < j < c.arrays@.len(),
    ensures
        c.arrays@[i].wf(),
        c.arrays@[j].wf(),
        c.arrays@[i].name@ != c.arrays@[j].name@,
        !overlaps(c.arrays@[i], c.arrays@[j]),
{
    valid_array_is_wf(c, i);
    valid_array_is_wf(c, j);
    lemma_arrays_suffix(c.arrays@, i);
    lemma_later_suffix(c.arrays@[i], c.arrays@, i + 1, j);
}

/// Every array of a valid configuration is well-formed.
pub proof fn valid_array_is_wf(c: AnalysisConfig, i: int)
    requires
        c.error() is None,
        0 <= i < c.arrays@.len(),
    ensures
        c.arrays@[i].wf(),
{
    lemma_arrays_suffix(c.arrays@, i);
}

proof fn lemma_arrays_suffix(arrays: Seq<ArrayDef>, i: int)
    requires
        arrays_error(arrays, 0) is None,
        0 <= i < arrays.len(),
    ensures
        arrays_error(arrays, i) is None,
        array_error(arrays[i]) is None,
        later_error(arrays[i], arrays, i + 1) is None,
    decreases i,
{
    if i > 0 {
        lemma_arrays_suffix(arrays, i - 1);
    }
}

proof fn lemma_later_suffix(a: ArrayDef, arrays: Seq<ArrayDef>, from: int, j: int)
    requires
        later_error(a, arrays, from) is None,
        0 <= from <= j < arrays.len(),
    ensures
        pair_error(a, arrays[j]) is None,
    decreases j - from,
{
    if from < j {
        lemma_later_suffix(a, arrays, from + 1, j);
    }
}

} // verus!
