//! Full versions of modules.

use vstd::prelude::*;
use crate::common::foundation::decimal::decimal_digits;
use crate::common::foundation::decimal::decimal_size;
use crate::common::foundation::decimal::write_decimal;
use crate::common::foundation::encode_argument::EncodeArgument;

verus! {

/// The full version of a module, such as `2.3`: the major and the minor
/// version.
#[derive(Clone, Copy, Debug, PartialEq, Eq, PartialOrd, Ord, Structural)]
pub struct ModuleVersion {
    pub major: u16,
    pub minor: u16,
}

impl EncodeArgument for ModuleVersion {
    open spec fn wire(&self) -> Seq<u8> {
        decimal_digits(self.major as nat) + seq![0x2eu8] + decimal_digits(self.minor as nat)
    }

    fn get_size(&self) -> (n: usize) {
        decimal_size(self.major as u128) + 1 + decimal_size(self.minor as u128)
    }

    fn encode(&self, buf: &mut [u8]) {
        let major_size = decimal_size(self.major as u128);
        let (left, rest) = buf.split_at_mut(major_size);
        let (dot, right) = rest.split_at_mut(1);
        write_decimal(self.major as u128, left);
        dot[0] = 0x2e;
        write_decimal(self.minor as u128, right);
        assert(dot@ =~= seq![0x2eu8]);
    }
}

} // verus!
