use vstd::prelude::*;

verus! {

/// The detectors available for Soroban contracts.
#[derive(Debug, Clone, Copy, PartialEq, Eq, Hash, Structural)]
pub enum SorobanDetector {
    AvoidCoreMemForget,
    AvoidPanicError,
    AvoidUnsafeBlock,
    DivideBeforeMultiply,
    DosUnboundedOperation,
    InsufficientlyRandomValues,
    OverflowCheck,
    SetContractStorage,
    SorobanVersion,
    UnprotectedUpdateCurrentContractWasm,
    UnsafeExpect,
    UnsafeUnwrap,
    UnusedReturnEnum,
}

/// The kebab-case name under which a detector is shown and selected.
pub open spec fn soroban_detector_name(d: SorobanDetector) -> Seq<char> {
    match d {
        SorobanDetector::AvoidCoreMemForget => "avoid-core-mem-forget"@,
        SorobanDetector::AvoidPanicError => "avoid-panic-error"@,
        SorobanDetector::AvoidUnsafeBlock => "avoid-unsafe-block"@,
        SorobanDetector::DivideBeforeMultiply => "divide-before-multiply"@,
        SorobanDetector::DosUnboundedOperation => "dos-unbounded-operation"@,
        SorobanDetector::InsufficientlyRandomValues => "insufficiently-random-values"@,
        SorobanDetector::OverflowCheck => "overflow-check"@,
        SorobanDetector::SetContractStorage => "set-contract-storage"@,
        SorobanDetector::SorobanVersion => "soroban-version"@,
        SorobanDetector::UnprotectedUpdateCurrentContractWasm => "unprotected-update-current-contract-wasm"@,
        SorobanDetector::UnsafeExpect => "unsafe-expect"@,
        SorobanDetector::UnsafeUnwrap => "unsafe-unwrap"@,
        SorobanDetector::UnusedReturnEnum => "unused-return-enum"@,
    }
}

/// Every detector, in declaration order.
pub open spec fn soroban_detector_name_all() -> Seq<SorobanDetector> {
    seq![SorobanDetector::AvoidCoreMemForget, SorobanDetector::AvoidPanicError, SorobanDetector::AvoidUnsafeBlock, SorobanDetector::DivideBeforeMultiply, SorobanDetector::DosUnboundedOperation, SorobanDetector::InsufficientlyRandomValues, SorobanDetector::OverflowCheck, SorobanDetector::SetContractStorage, SorobanDetector::SorobanVersion, SorobanDetector::UnprotectedUpdateCurrentContractWasm, SorobanDetector::UnsafeExpect, SorobanDetector::UnsafeUnwrap, SorobanDetector::UnusedReturnEnum]
}

impl SorobanDetector {
    /// The kebab-case name of the detector.
    pub fn name(&self) -> (r: &'static str)
        ensures
            r@ == soroban_detector_name(*self),
    {
        match self {
            SorobanDetector::AvoidCoreMemForget => "avoid-core-mem-forget",
            SorobanDetector::AvoidPanicError => "avoid-panic-error",
            SorobanDetector::AvoidUnsafeBlock => "avoid-unsafe-block",
            SorobanDetector::DivideBeforeMultiply => "divide-before-multiply",
            SorobanDetector::DosUnboundedOperation => "dos-unbounded-operation",
            SorobanDetector::InsufficientlyRandomValues => "insufficiently-random-values",
            SorobanDetector::OverflowCheck => "overflow-check",
            SorobanDetector::SetContractStorage => "set-contract-storage",
            SorobanDetector::SorobanVersion => "soroban-version",
            SorobanDetector::UnprotectedUpdateCurrentContractWasm => "unprotected-update-current-contract-wasm",
            SorobanDetector::UnsafeExpect => "unsafe-expect",
            SorobanDetector::UnsafeUnwrap => "unsafe-unwrap",
            SorobanDetector::UnusedReturnEnum => "unused-return-enum",
        }
    }

    /// Every detector, in declaration order.
    pub fn all() -> (r: Vec<SorobanDetector>)
        ensures
            r@ == soroban_detector_name_all(),
    {
        let r = vec![SorobanDetector::AvoidCoreMemForget, SorobanDetector::AvoidPanicError, SorobanDetector::AvoidUnsafeBlock, SorobanDetector::DivideBeforeMultiply, SorobanDetector::DosUnboundedOperation, SorobanDetector::InsufficientlyRandomValues, SorobanDetector::OverflowCheck, SorobanDetector::SetContractStorage, SorobanDetector::SorobanVersion, SorobanDetector::UnprotectedUpdateCurrentContractWasm, SorobanDetector::UnsafeExpect, SorobanDetector::UnsafeUnwrap, SorobanDetector::UnusedReturnEnum];
        assert(r@ =~= soroban_detector_name_all());
        r
    }
}

/// The detectors available for ink! contracts.
#[derive(Debug, Clone, Copy, PartialEq, Eq, Hash, Structural)]
pub enum InkDetector {
    AssertViolation,
    AvoidCoreMemForget,
    AvoidFormatString,
    DelegateCall,
    DivideBeforeMultiply,
    DosUnboundedOperation,
    DosUnexpectedRevertWithVector,
    InkVersion,
    InsufficientlyRandomValues,
    IntegerOverflowOrUnderflow,
    IteratorsOverIndexing,
    LazyDelegate,
    PanicError,
    Reentrancy1,
    Reentrancy2,
    SetCodeHash,
    SetContractStorage,
    UnprotectedMappingOperation,
    UnprotectedSelfDestruct,
    UnrestrictedTransferFrom,
    UnsafeExpect,
    UnsafeUnwrap,
    UnusedReturnEnum,
    ZeroOrTestAddress,
}

/// The kebab-case name under which a detector is shown and selected.
pub open spec fn ink_detector_name(d: InkDetector) -> Seq<char> {
    match d {
        InkDetector::AssertViolation => "assert-violation"@,
        InkDetector::AvoidCoreMemForget => "avoid-core-mem-forget"@,
        InkDetector::AvoidFormatString => "avoid-format-string"@,
        InkDetector::DelegateCall => "delegate-call"@,
        InkDetector::DivideBeforeMultiply => "divide-before-multiply"@,
        InkDetector::DosUnboundedOperation => "dos-unbounded-operation"@,
        InkDetector::DosUnexpectedRevertWithVector => "dos-unexpected-revert-with-vector"@,
        InkDetector::InkVersion => "ink-version"@,
        InkDetector::InsufficientlyRandomValues => "insufficiently-random-values"@,
        InkDetector::IntegerOverflowOrUnderflow => "integer-overflow-or-underflow"@,
        InkDetector::IteratorsOverIndexing => "iterators-over-indexing"@,
        InkDetector::LazyDelegate => "lazy-delegate"@,
        InkDetector::PanicError => "panic-error"@,
        InkDetector::Reentrancy1 => "reentrancy-1"@,
        InkDetector::Reentrancy2 => "reentrancy-2"@,
        InkDetector::SetCodeHash => "set-code-hash"@,
        InkDetector::SetContractStorage => "set-contract-storage"@,
        InkDetector::UnprotectedMappingOperation => "unprotected-mapping-operation"@,
        InkDetector::UnprotectedSelfDestruct => "unprotected-self-destruct"@,
        InkDetector::UnrestrictedTransferFrom => "unrestricted-transfer-from"@,
        InkDetector::UnsafeExpect => "unsafe-expect"@,
        InkDetector::UnsafeUnwrap => "unsafe-unwrap"@,
        InkDetector::UnusedReturnEnum => "unused-return-enum"@,
        InkDetector::ZeroOrTestAddress => "zero-or-test-address"@,
    }
}

/// Every detector, in declaration order.
pub open spec fn ink_detector_name_all() -> Seq<InkDetector> {
    seq![InkDetector::AssertViolation, InkDetector::AvoidCoreMemForget, InkDetector::AvoidFormatString, InkDetector::DelegateCall, InkDetector::DivideBeforeMultiply, InkDetector::DosUnboundedOperation, InkDetector::DosUnexpectedRevertWithVector, InkDetector::InkVersion, InkDetector::InsufficientlyRandomValues, InkDetector::IntegerOverflowOrUnderflow, InkDetector::IteratorsOverIndexing, InkDetector::LazyDelegate, InkDetector::PanicError, InkDetector::Reentrancy1, InkDetector::Reentrancy2, InkDetector::SetCodeHash, InkDetector::SetContractStorage, InkDetector::UnprotectedMappingOperation, InkDetector::UnprotectedSelfDestruct, InkDetector::UnrestrictedTransferFrom, InkDetector::UnsafeExpect, InkDetector::UnsafeUnwrap, InkDetector::UnusedReturnEnum, InkDetector::ZeroOrTestAddress]
}

impl InkDetector {
    /// The kebab-case name of the detector.
    pub fn name(&self) -> (r: &'static str)
        ensures
            r@ == ink_detector_name(*self),
    {
        match self {
            InkDetector::AssertViolation => "assert-violation",
            InkDetector::AvoidCoreMemForget => "avoid-core-mem-forget",
            InkDetector::AvoidFormatString => "avoid-format-string",
            InkDetector::DelegateCall => "delegate-call",
            InkDetector::DivideBeforeMultiply => "divide-before-multiply",
            InkDetector::DosUnboundedOperation => "dos-unbounded-operation",
            InkDetector::DosUnexpectedRevertWithVector => "dos-unexpected-revert-with-vector",
            InkDetector::InkVersion => "ink-version",
            InkDetector::InsufficientlyRandomValues => "insufficiently-random-values",
            InkDetector::IntegerOverflowOrUnderflow => "integer-overflow-or-underflow",
            InkDetector::IteratorsOverIndexing => "iterators-over-indexing",
            InkDetector::LazyDelegate => "lazy-delegate",
            InkDetector::PanicError => "panic-error",
            InkDetector::Reentrancy1 => "reentrancy-1",
            InkDetector::Reentrancy2 => "reentrancy-2",
            InkDetector::SetCodeHash => "set-code-hash",
            InkDetector::SetContractStorage => "set-contract-storage",
            InkDetector::UnprotectedMappingOperation => "unprotected-mapping-operation",
            InkDetector::UnprotectedSelfDestruct => "unprotected-self-destruct",
            InkDetector::UnrestrictedTransferFrom => "unrestricted-transfer-from",
            InkDetector::UnsafeExpect => "unsafe-expect",
            InkDetector::UnsafeUnwrap => "unsafe-unwrap",
            InkDetector::UnusedReturnEnum => "unused-return-enum",
            InkDetector::ZeroOrTestAddress => "zero-or-test-address",
        }
    }

    /// Every detector, in declaration order.
    pub fn all() -> (r: Vec<InkDetector>)
        ensures
            r@ == ink_detector_name_all(),
    {
        let r = vec![InkDetector::AssertViolation, InkDetector::AvoidCoreMemForget, InkDetector::AvoidFormatString, InkDetector::DelegateCall, InkDetector::DivideBeforeMultiply, InkDetector::DosUnboundedOperation, InkDetector::DosUnexpectedRevertWithVector, InkDetector::InkVersion, InkDetector::InsufficientlyRandomValues, InkDetector::IntegerOverflowOrUnderflow, InkDetector::IteratorsOverIndexing, InkDetector::LazyDelegate, InkDetector::PanicError, InkDetector::Reentrancy1, InkDetector::Reentrancy2, InkDetector::SetCodeHash, InkDetector::SetContractStorage, InkDetector::UnprotectedMappingOperation, InkDetector::UnprotectedSelfDestruct, InkDetector::UnrestrictedTransferFrom, InkDetector::UnsafeExpect, InkDetector::UnsafeUnwrap, InkDetector::UnusedReturnEnum, InkDetector::ZeroOrTestAddress];
        assert(r@ =~= ink_detector_name_all());
        r
    }
}

} // verus!
