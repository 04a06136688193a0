//! Modbus RTU framing: parsing requests and building responses and exception
//! frames, each guarded by the Modbus CRC-16.
use vstd::prelude::*;

use crate::frame::{frame_as_slice, frame_bytes, frame_new, frame_push};
use crate::options::le_u16;

verus! {

/// Function codes of the Modbus protocol.
#[derive(Debug, Clone, Copy, PartialEq, Eq, Structural)]
pub enum FunctionCode {
    ReadCoils,
    ReadDiscreteInputs,
    ReadHoldingRegisters,
    ReadInputRegisters,
    WriteSingleCoil,
    WriteSingleRegister,
    WriteMultipleCoils,
    WriteMultipleRegisters,
    ReadWriteMultipleRegisters,
}

impl FunctionCode {
    /// The code byte of a function.
    pub open spec fn spec_code(self) -> u8 {
        match self {
            FunctionCode::ReadCoils => 0x01,
            FunctionCode::ReadDiscreteInputs => 0x02,
            FunctionCode::ReadHoldingRegisters => 0x03,
            FunctionCode::ReadInputRegisters => 0x04,
            FunctionCode::WriteSingleCoil => 0x05,
            FunctionCode::WriteSingleRegister => 0x06,
            FunctionCode::WriteMultipleCoils => 0x0F,
            FunctionCode::WriteMultipleRegisters => 0x10,
            FunctionCode::ReadWriteMultipleRegisters => 0x17,
        }
    }

    /// The function whose code byte is `value`, if there is one.
    pub open spec fn spec_from_u8(value: u8) -> Option<FunctionCode> {
        if value == 0x01 {
            Some(FunctionCode::ReadCoils)
        } else if value == 0x02 {
            Some(FunctionCode::ReadDiscreteInputs)
        } else if value == 0x03 {
            Some(FunctionCode::ReadHoldingRegisters)
        } else if value == 0x04 {
            Some(FunctionCode::ReadInputRegisters)
        } else if value == 0x05 {
            Some(FunctionCode::WriteSingleCoil)
        } else if value == 0x06 {
            Some(FunctionCode::WriteSingleRegister)
        } else if value == 0x0F {
            Some(FunctionCode::WriteMultipleCoils)
        } else if value == 0x10 {
            Some(FunctionCode::WriteMultipleRegisters)
        } else if value == 0x17 {
            Some(FunctionCode::ReadWriteMultipleRegisters)
        } else {
            None
        }
    }

    /// The code byte of this function.
    pub fn code(self) -> (r: u8)
        ensures
            r == self.spec_code(),
    {
        match self {
            FunctionCode::ReadCoils => 0x01,
            FunctionCode::ReadDiscreteInputs => 0x02,
            FunctionCode::ReadHoldingRegisters => 0x03,
            FunctionCode::ReadInputRegisters => 0x04,
            FunctionCode::WriteSingleCoil => 0x05,
            FunctionCode::WriteSingleRegister => 0x06,
            FunctionCode::WriteMultipleCoils => 0x0F,
            FunctionCode::WriteMultipleRegisters => 0x10,
            FunctionCode::ReadWriteMultipleRegisters => 0x17,
        }
    }

    /// The function whose code byte is `value`, if there is one.
    pub fn from_u8(value: u8) -> (r: Option<FunctionCode>)
        ensures
            r == FunctionCode::spec_from_u8(value),
            r matches Some(f) ==> f.spec_code() == value,
    {
        match value {
            0x01 => Some(FunctionCode::ReadCoils),
            0x02 => Some(FunctionCode::ReadDiscreteInputs),
            0x03 => Some(FunctionCode::ReadHoldingRegisters),
            0x04 => Some(FunctionCode::ReadInputRegisters),
            0x05 => Some(FunctionCode::WriteSingleCoil),
            0x06 => Some(FunctionCode::WriteSingleRegister),
            0x0F => Some(FunctionCode::WriteMultipleCoils),
            0x10 => Some(FunctionCode::WriteMultipleRegisters),
            0x17 => Some(FunctionCode::ReadWriteMultipleRegisters),
            _ => None,
        }
    }
}

/// Exception codes that a slave answers with.
#[derive(Debug, Clone, Copy, PartialEq, Eq, Structural)]
pub enum ExceptionCode {
    IllegalFunction,
    IllegalDataAddress,
    IllegalDataValue,
    ServerDeviceFailure,
}

impl ExceptionCode {
    /// The code byte of an exception.
    pub open spec fn spec_code(self) -> u8 {
        match self {
            ExceptionCode::IllegalFunction => 0x01,
            ExceptionCode::IllegalDataAddress => 0x02,
            ExceptionCode::IllegalDataValue => 0x03,
            ExceptionCode::ServerDeviceFailure => 0x04,
        }
    }

    /// The code byte of this exception.
    pub fn code(self) -> (r: u8)
        ensures
            r == self.spec_code(),
    {
        match self {
            ExceptionCode::IllegalFunction => 0x01,
            ExceptionCode::IllegalDataAddress => 0x02,
            ExceptionCode::IllegalDataValue => 0x03,
            ExceptionCode::ServerDeviceFailure => 0x04,
        }
    }
}

/// Why a frame could not be parsed or built.
#[derive(Debug, Clone, Copy, PartialEq, Eq, Structural)]
pub enum ModbusError {
    InvalidCrc,
    InvalidLength,
    InvalidSlaveAddress,
    BufferTooSmall,
    Exception(ExceptionCode),
}

/// A decoded request.
#[derive(Debug)]
pub struct ModbusRequest {
    pub slave_address: u8,
    pub function_code: FunctionCode,
    pub start_address: u16,
    pub quantity: u16,
    pub write_data: heapless::Vec<u8, 256>,
}

/// The content of a request, with its payload as a sequence.
pub struct RequestView {
    pub slave_address: u8,
    pub function_code: FunctionCode,
    pub start_address: u16,
    pub quantity: u16,
    pub write_data: Seq<u8>,
}

impl View for ModbusRequest {
    type V = RequestView;

    open spec fn view(&self) -> RequestView {
        RequestView {
            slave_address: self.slave_address,
            function_code: self.function_code,
            start_address: self.start_address,
            quantity: self.quantity,
            write_data: frame_bytes(self.write_data),
        }
    }
}

/// A response to be framed: address, function byte and payload.
#[derive(Debug)]
pub struct ModbusResponse {
    pub slave_address: u8,
    pub function_code: u8,
    pub data: heapless::Vec<u8, 256>,
}

/// One step of the bitwise Modbus CRC: shift right, folding in the
/// polynomial `0xA001` when the bit shifted out is set.
pub open spec fn crc_shift(crc: u16) -> u16 {
    if (crc & 1u16) != 0 {
        (crc >> 1u16) ^ 0xA001u16
    } else {
        crc >> 1u16
    }
}

/// `n` steps of `crc_shift`.
pub open spec fn crc_shifts(crc: u16, n: nat) -> u16
    decreases n,
{
    if n == 0 {
        crc
    } else {
        crc_shift(crc_shifts(crc, (n - 1) as nat))
    }
}

/// The Modbus CRC-16 (initial value `0xFFFF`, reflected polynomial `0xA001`)
/// of a byte sequence.
pub open spec fn modbus_crc(data: Seq<u8>) -> u16
    decreases data.len(),
{
    if data.len() == 0 {
        0xFFFFu16
    } else {
        crc_shifts(modbus_crc(data.drop_last()) ^ (data.last() as u16), 8)
    }
}

/// `body` followed by its Modbus CRC, low byte first.
pub open spec fn with_crc(body: Seq<u8>) -> Seq<u8> {
    body.push((modbus_crc(body) & 0xff) as u8).push(((modbus_crc(body) >> 8u16) & 0xff) as u8)
}

/// The 16-bit value of two bytes, high byte first.
pub open spec fn be_u16(hi: u8, lo: u8) -> u16 {
    ((hi as u16) << 8u16) | (lo as u16)
}

/// The outcome of parsing `frame` at a slave whose address is `own`.
pub open spec fn parse_outcome(own: u8, frame: Seq<u8>) -> Result<RequestView, ModbusError> {
    let n = frame.len();
    if n < 8 {
        Err(ModbusError::InvalidLength)
    } else if frame[0] != own && frame[0] != 0 {
        Err(ModbusError::InvalidSlaveAddress)
    } else if le_u16(frame, n - 2) != modbus_crc(frame.subrange(0, n - 2)) {
        Err(ModbusError::InvalidCrc)
    } else {
        match FunctionCode::spec_from_u8(frame[1]) {
            Some(FunctionCode::ReadHoldingRegisters) | Some(FunctionCode::ReadInputRegisters) => Ok(
                RequestView {
                    slave_address: frame[0],
                    function_code: FunctionCode::spec_from_u8(frame[1])->Some_0,
                    start_address: be_u16(frame[2], frame[3]),
                    quantity: be_u16(frame[4], frame[5]),
                    write_data: Seq::empty(),
                },
            ),
            Some(FunctionCode::WriteSingleRegister) => Ok(
                RequestView {
                    slave_address: frame[0],
                    function_code: FunctionCode::WriteSingleRegister,
                    start_address: be_u16(frame[2], frame[3]),
                    quantity: 1,
                    write_data: seq![frame[4], frame[5]],
                },
            ),
            Some(FunctionCode::WriteMultipleRegisters) => if n < 7 + frame[6] + 2 {
                Err(ModbusError::InvalidLength)
            } else {
                Ok(
                    RequestView {
                        slave_address: frame[0],
                        function_code: FunctionCode::WriteMultipleRegisters,
                        start_address: be_u16(frame[2], frame[3]),
                        quantity: be_u16(frame[4], frame[5]),
                        write_data: frame.subrange(7, 7 + frame[6]),
                    },
                )
            },
            _ => Err(ModbusError::Exception(ExceptionCode::IllegalFunction)),
        }
    }
}

/// The Modbus RTU framer of one slave.
pub struct ModbusRtu {
    slave_address: u8,
}

impl ModbusRtu {
    /// The address this slave answers to.
    pub closed spec fn spec_slave_address(&self) -> u8 {
        self.slave_address
    }

    /// A framer for the slave at `slave_address`.
    pub fn new(slave_address: u8) -> (r: ModbusRtu)
        ensures
            r.spec_slave_address() == slave_address,
    {
        ModbusRtu { slave_address }
    }

    /// The Modbus CRC-16 of `data`.
    pub fn calculate_crc(data: &[u8]) -> (r: u16)
        ensures
            r == modbus_crc(data@),
    {
        let mut crc: u16 = 0xFFFF;
        let mut i: usize = 0;
        while i < data.len()
            invariant
                i <= data@.len(),
                crc == modbus_crc(data@.subrange(0, i as int)),
            decreases data@.len() - i,
        {
            let ghost start = crc ^ (data@[i as int] as u16);
            crc = crc ^ (data[i] as u16);
            let mut k: usize = 0;
            while k < 8
                invariant
                    k <= 8,
                    crc == crc_shifts(start, k as nat),
                decreases 8 - k,
            {
                if (crc & 1u16) != 0 {
                    crc = (crc >> 1u16) ^ 0xA001u16;
                } else {
                    crc = crc >> 1u16;
                }
                k = k + 1;
            }
            assert(data@.subrange(0, i + 1).drop_last() =~= data@.subrange(0, i as int));
            i = i + 1;
        }
        assert(data@.subrange(0, data@.len() as int) =~= data@);
        crc
    }

    /// Decodes a request frame addressed to this slave or broadcast.
    pub fn parse_request(&self, frame: &[u8]) -> (r: Result<ModbusRequest, ModbusError>)
        ensures
            match r {
                Ok(q) => parse_outcome(self.spec_slave_address(), frame@) == Ok::<
                    RequestView,
                    ModbusError,
                >(q@),
                Err(e) => parse_outcome(self.spec_slave_address(), frame@) == Err::<
                    RequestView,
                    ModbusError,
                >(e),
            },
    {
        let n = frame.len();
        if n < 8 {
            return Err(ModbusError::InvalidLength);
        }
        let slave_address = frame[0];
        if slave_address != self.slave_address && slave_address != 0 {
            return Err(ModbusError::InvalidSlaveAddress);
        }
        let received = (frame[n - 2] as u16) | ((frame[n - 1] as u16) << 8u16);
        let calculated = ModbusRtu::calculate_crc(vstd::slice::slice_subrange(frame, 0, n - 2));
        if received != calculated {
            return Err(ModbusError::InvalidCrc);
        }
        let function_code = match FunctionCode::from_u8(frame[1]) {
            Some(f) => f,
            None => return Err(ModbusError::Exception(ExceptionCode::IllegalFunction)),
        };
        let start_address = ((frame[2] as u16) << 8u16) | (frame[3] as u16);
        match function_code {
            FunctionCode::ReadHoldingRegisters | FunctionCode::ReadInputRegisters => {
                let quantity = ((frame[4] as u16) << 8u16) | (frame[5] as u16);
                Ok(
                    ModbusRequest {
                        slave_address,
                        function_code,
                        start_address,
                        quantity,
                        write_data: frame_new(),
                    },
                )
            },
            FunctionCode::WriteSingleRegister => {
                let mut write_data = frame_new();
                frame_push(&mut write_data, frame[4]);
                frame_push(&mut write_data, frame[5]);
                assert(frame_bytes(write_data) =~= seq![frame@[4], frame@[5]]);
                Ok(
                    ModbusRequest {
                        slave_address,
                        function_code,
                        start_address,
                        quantity: 1,
                        write_data,
                    },
                )
            },
            FunctionCode::WriteMultipleRegisters => {
                let quantity = ((frame[4] as u16) << 8u16) | (frame[5] as u16);
                let byte_count = frame[6] as usize;
                if n < 7 + byte_count + 2 {
                    return Err(ModbusError::InvalidLength);
                }
                let mut write_data = frame_new();
                let mut i: usize = 0;
                while i < byte_count
                    invariant
                        i <= byte_count,
                        byte_count <= 255,
                        7 + byte_count + 2 <= n,
                        n == frame@.len(),
                        frame_bytes(write_data) == frame@.subrange(7, 7 + i),
                    decreases byte_count - i,
                {
                    frame_push(&mut write_data, frame[7 + i]);
                    i = i + 1;
                    assert(frame_bytes(write_data) =~= frame@.subrange(7, 7 + i));
                }
                Ok(
                    ModbusRequest {
                        slave_address,
                        function_code,
                        start_address,
                        quantity,
                        write_data,
                    },
                )
            },
            _ => Err(ModbusError::Exception(ExceptionCode::IllegalFunction)),
        }
    }

    /// Appends the Modbus CRC of what `frame` holds, low byte first.
    fn seal(frame: &mut heapless::Vec<u8, 256>) -> (r: Result<(), ModbusError>)
        ensures
            r is Ok <==> frame_bytes(*old(frame)).len() + 2 <= 256,
            r is Ok ==> frame_bytes(*final(frame)) == with_crc(frame_bytes(*old(frame))),
            r is Err ==> r->Err_0 == ModbusError::BufferTooSmall,
    {
        let crc = ModbusRtu::calculate_crc(frame_as_slice(frame));
        if !frame_push(frame, (crc & 0xff) as u8) {
            return Err(ModbusError::BufferTooSmall);
        }
        if !frame_push(frame, ((crc >> 8u16) & 0xff) as u8) {
            return Err(ModbusError::BufferTooSmall);
        }
        Ok(())
    }

    /// Frames a response: address, function byte, payload and CRC. Fails
    /// when the frame would exceed 256 bytes.
    pub fn build_response(&self, response: &ModbusResponse) -> (r: Result<
        heapless::Vec<u8, 256>,
        ModbusError,
    >)
        ensures
            r is Ok <==> frame_bytes(response.data).len() + 4 <= 256,
            r is Ok ==> frame_bytes(r->Ok_0) == with_crc(
                seq![response.slave_address, response.function_code] + frame_bytes(response.data),
            ),
            r is Err ==> r->Err_0 == ModbusError::BufferTooSmall,
    {
        let mut frame = frame_new();
        frame_push(&mut frame, response.slave_address);
        frame_push(&mut frame, response.function_code);
        let data = frame_as_slice(&response.data);
        let ghost head = seq![response.slave_address, response.function_code];
        assert(frame_bytes(frame) =~= head);
        let mut i: usize = 0;
        while i < data.len()
            invariant
                i <= data@.len(),
                data@ == frame_bytes(response.data),
                head.len() == 2,
                frame_bytes(frame) == head + data@.subrange(0, i as int),
            decreases data@.len() - i,
        {
            if !frame_push(&mut frame, data[i]) {
                return Err(ModbusError::BufferTooSmall);
            }
            i = i + 1;
            assert(frame_bytes(frame) =~= head + data@.subrange(0, i as int));
        }
        assert(data@.subrange(0, data@.len() as int) =~= data@);
        match ModbusRtu::seal(&mut frame) {
            Ok(()) => Ok(frame),
            Err(e) => Err(e),
        }
    }

    /// Frames an exception: address, function byte with its high bit set,
    /// exception code and CRC.
    pub fn build_exception(&self, slave_address: u8, function_code: u8, exception: ExceptionCode) -> (r:
        Result<heapless::Vec<u8, 256>, ModbusError>)
        ensures
            r is Ok,
            frame_bytes(r->Ok_0) == with_crc(
                seq![slave_address, function_code | 0x80u8, exception.spec_code()],
            ),
    {
        let mut frame = frame_new();
        frame_push(&mut frame, slave_address);
        frame_push(&mut frame, function_code | 0x80u8);
        frame_push(&mut frame, exception.code());
        assert(frame_bytes(frame) =~= seq![slave_address, function_code | 0x80u8, exception.spec_code()]);
        match ModbusRtu::seal(&mut frame) {
            Ok(()) => Ok(frame),
            Err(e) => Err(e),
        }
    }

    /// The address this slave answers to.
    pub fn slave_address(&self) -> (r: u8)
        ensures
            r == self.spec_slave_address(),
    {
        self.slave_address
    }

    /// Changes the address this slave answers to.
    pub fn set_slave_address(&mut self, address: u8)
        ensures
            final(self).spec_slave_address() == address,
    {
        self.slave_address = address;
    }
}

} // verus!
