//! The Modbus register map: holding registers mirror the configuration
//! record and expose the live flow values; writes patch the record and save
//! it.
use vstd::prelude::*;

use crate::frame::{frame_as_slice, frame_bytes, frame_new, frame_push};
use crate::history::{Error as HistoryError, RingStorage};
use crate::modbus::{
    with_crc, be_u16, parse_outcome, ExceptionCode, FunctionCode, ModbusError, ModbusRequest,
    ModbusResponse, ModbusRtu, RequestView,
};
use crate::options::{
    page_image, sealed, Options, OFFSET_PRIMARY, OFFSET_SECONDARY, PAGE_SIZE, RECORD_LEN,
};
use crate::storage::{splice, ByteStorage};

verus! {

/// Last register of the configuration mirror.
pub const OPTIONS_END: u16 = 0x001F;

/// First holding register of the flow values.
pub const FLOW_RATE: u16 = 0x0064;

/// Number of registers that the four flow values span.
pub const FLOW_REGISTERS: u16 = 8;

/// Largest number of registers one read may ask for.
pub const MAX_READ_REGISTERS: u16 = 125;

/// A frame carrying exception `ex` for function byte `function`.
pub open spec fn exception_frame(slave: u8, function: u8, ex: ExceptionCode) -> Seq<u8> {
    with_crc(seq![slave, function | 0x80u8, ex.spec_code()])
}

/// A frame carrying `data` for function byte `function`.
pub open spec fn reply_frame(slave: u8, function: u8, data: Seq<u8>) -> Seq<u8> {
    with_crc(seq![slave, function] + data)
}

/// The two big-endian bytes of 16-bit half `half` (0 high, 1 low) of `v`.
pub open spec fn half_bytes(v: u32, half: int) -> Seq<u8> {
    if half == 0 {
        seq![((v >> 24u32) & 0xff) as u8, ((v >> 16u32) & 0xff) as u8]
    } else {
        seq![((v >> 8u32) & 0xff) as u8, (v & 0xff) as u8]
    }
}

/// The bytes of `count` flow registers from register `first`: register `r`
/// is half `r % 2` of value `r / 2`.
pub open spec fn flow_regs(flows: Seq<u32>, first: int, count: nat) -> Seq<u8>
    decreases count,
{
    if count == 0 {
        Seq::empty()
    } else {
        let r = first + count - 1;
        flow_regs(flows, first, (count - 1) as nat) + half_bytes(flows[r / 2], r % 2)
    }
}

/// The reply to a read of holding registers: the byte count, then either the
/// record's bytes from `2 * start` (registers up to `OPTIONS_END`) or the
/// flow registers; a range that leaves both windows is refused.
pub open spec fn holding_reply(q: RequestView, record: Seq<u8>, flows: Seq<u32>) -> Seq<u8> {
    let f = q.function_code.spec_code();
    let start = q.start_address as int;
    let n = q.quantity as int;
    if n == 0 || n > MAX_READ_REGISTERS {
        exception_frame(q.slave_address, f, ExceptionCode::IllegalDataValue)
    } else if start <= OPTIONS_END {
        if start + n > OPTIONS_END + 1 {
            exception_frame(q.slave_address, f, ExceptionCode::IllegalDataAddress)
        } else {
            reply_frame(
                q.slave_address,
                f,
                seq![(2 * n) as u8] + record.subrange(2 * start, 2 * start + 2 * n),
            )
        }
    } else if FLOW_RATE <= start && start + n <= FLOW_RATE + FLOW_REGISTERS {
        reply_frame(
            q.slave_address,
            f,
            seq![(2 * n) as u8] + flow_regs(flows, start - FLOW_RATE, n as nat),
        )
    } else {
        exception_frame(q.slave_address, f, ExceptionCode::IllegalDataAddress)
    }
}

/// The reply to a read of input registers: the flow registers, numbered
/// from 0; a range past the last of them is refused.
pub open spec fn input_reply(q: RequestView, flows: Seq<u32>) -> Seq<u8> {
    let f = q.function_code.spec_code();
    let start = q.start_address as int;
    let n = q.quantity as int;
    if n == 0 || n > MAX_READ_REGISTERS {
        exception_frame(q.slave_address, f, ExceptionCode::IllegalDataValue)
    } else if start + n <= FLOW_REGISTERS {
        reply_frame(q.slave_address, f, seq![(2 * n) as u8] + flow_regs(flows, start, n as nat))
    } else {
        exception_frame(q.slave_address, f, ExceptionCode::IllegalDataAddress)
    }
}

/// What a write request does: the exception it is refused with, or the
/// record offset and bytes to patch and the payload of the reply.
pub open spec fn write_plan(q: RequestView) -> Result<(int, Seq<u8>, Seq<u8>), ExceptionCode> {
    let start = q.start_address as int;
    let be_start = seq![((q.start_address >> 8u16) & 0xff) as u8, (q.start_address & 0xff) as u8];
    if q.function_code == FunctionCode::WriteSingleRegister {
        if start > OPTIONS_END {
            Err(ExceptionCode::IllegalDataAddress)
        } else if q.write_data.len() != 2 {
            Err(ExceptionCode::IllegalDataValue)
        } else {
            Ok((2 * start, q.write_data, be_start + q.write_data))
        }
    } else {
        if start + q.quantity - 1 > OPTIONS_END {
            Err(ExceptionCode::IllegalDataAddress)
        } else if q.write_data.len() != 2 * q.quantity {
            Err(ExceptionCode::IllegalDataValue)
        } else {
            Ok(
                (
                    2 * start,
                    q.write_data,
                    be_start + seq![((q.quantity >> 8u16) & 0xff) as u8, (q.quantity & 0xff) as u8],
                ),
            )
        }
    }
}

/// The device after a successful save of `record`.
pub open spec fn saved_device(dev: Seq<u8>, record: Seq<u8>) -> Seq<u8> {
    splice(
        splice(dev, OFFSET_PRIMARY as int, page_image(record)),
        OFFSET_SECONDARY as int,
        page_image(record),
    )
}

/// What a write request that passed its checks leaves behind: the record
/// patched with the plan's bytes and sealed; then either the echo, sent only
/// after the save put the record's page at both offsets, or the
/// device-failure exception, sent only when the save failed. On a reliable
/// device with room for both pages the save succeeds, so the echo is sent.
pub open spec fn write_done(
    slave: u8,
    function: u8,
    plan: (int, Seq<u8>, Seq<u8>),
    old_record: Seq<u8>,
    new_record: Seq<u8>,
    old_dev: Seq<u8>,
    new_dev: Seq<u8>,
    reliable: bool,
    frame: Seq<u8>,
) -> bool {
    &&& new_record == sealed(splice(old_record, plan.0, plan.1))
    &&& (frame == reply_frame(slave, function, plan.2) && old_dev.len() >= 2 * PAGE_SIZE
        && new_dev == saved_device(old_dev, new_record)) || frame == exception_frame(
        slave,
        function,
        ExceptionCode::ServerDeviceFailure,
    )
    &&& reliable && old_dev.len() >= 2 * PAGE_SIZE ==> frame == reply_frame(slave, function, plan.2)
    &&& frame == exception_frame(slave, function, ExceptionCode::ServerDeviceFailure) ==> !(
    reliable && old_dev.len() >= 2 * PAGE_SIZE)
}

/// The Modbus slave: decodes requests and answers them from the record and
/// the live flow values.
pub struct ModbusHandler {
    modbus: ModbusRtu,
}

impl ModbusHandler {
    /// The address this slave answers to.
    pub closed spec fn spec_slave_address(&self) -> u8 {
        self.modbus.spec_slave_address()
    }

    /// A handler for the slave at `slave_address`.
    pub fn new(slave_address: u8) -> (r: ModbusHandler)
        ensures
            r.spec_slave_address() == slave_address,
    {
        ModbusHandler { modbus: ModbusRtu::new(slave_address) }
    }

    /// The framer.
    pub fn modbus(&self) -> (r: &ModbusRtu)
        ensures
            r.spec_slave_address() == self.spec_slave_address(),
    {
        &self.modbus
    }

    /// The framer, to change the address.
    pub fn modbus_mut(&mut self) -> (r: &mut ModbusRtu)
        ensures
            r.spec_slave_address() == old(self).spec_slave_address(),
            final(r).spec_slave_address() == final(self).spec_slave_address(),
    {
        &mut self.modbus
    }

    /// An exception frame; it always fits.
    fn exception(&self, slave: u8, function: u8, ex: ExceptionCode) -> (r: heapless::Vec<u8, 256>)
        ensures
            frame_bytes(r) == exception_frame(slave, function, ex),
    {
        match self.modbus.build_exception(slave, function, ex) {
            Ok(f) => f,
            Err(_) => frame_new(),
        }
    }

    /// Frames `data` as the reply; it fits when the payload is at most 252
    /// bytes.
    fn reply(&self, slave: u8, function: u8, data: heapless::Vec<u8, 256>) -> (r: Result<
        heapless::Vec<u8, 256>,
        ModbusError,
    >)
        requires
            frame_bytes(data).len() <= 252,
        ensures
            r is Ok,
            frame_bytes(r->Ok_0) == reply_frame(slave, function, frame_bytes(data)),
    {
        let response = ModbusResponse { slave_address: slave, function_code: function, data };
        self.modbus.build_response(&response)
    }

    /// Appends the bytes of `count` flow registers from register `first`.
    fn push_flow_regs(data: &mut heapless::Vec<u8, 256>, flows: &[u32; 4], first: u16, count: u16)
        requires
            frame_bytes(*old(data)).len() + 2 * count <= 256,
            first + count <= FLOW_REGISTERS,
        ensures
            frame_bytes(*final(data)) == frame_bytes(*old(data)) + flow_regs(
                flows@,
                first as int,
                count as nat,
            ),
            frame_bytes(*final(data)).len() == frame_bytes(*old(data)).len() + 2 * count,
    {
        let ghost head = frame_bytes(*data);
        let mut i: u16 = 0;
        while i < count
            invariant
                i <= count,
                head.len() + 2 * count <= 256,
                first + count <= FLOW_REGISTERS,
                frame_bytes(*data) == head + flow_regs(flows@, first as int, i as nat),
                frame_bytes(*data).len() == head.len() + 2 * i,
            decreases count - i,
        {
            let r = first as u32 + i as u32;
            let idx = (r / 2) as usize;
            let v = flows[idx];
            if r % 2 == 0 {
                frame_push(data, ((v >> 24u32) & 0xff) as u8);
                frame_push(data, ((v >> 16u32) & 0xff) as u8);
            } else {
                frame_push(data, ((v >> 8u32) & 0xff) as u8);
                frame_push(data, (v & 0xff) as u8);
            }
            proof {
                assert(flow_regs(flows@, first as int, (i + 1) as nat) == flow_regs(
                    flows@,
                    first as int,
                    i as nat,
                ) + half_bytes(flows@[(first + i) / 2], (first + i) % 2));
            }
            i = i + 1;
            assert(frame_bytes(*data) =~= head + flow_regs(flows@, first as int, i as nat));
        }
    }

    /// Answers a read of holding registers.
    fn read_holding(&self, request: &ModbusRequest, options: &Options, flows: &[u32; 4]) -> (r:
        Result<heapless::Vec<u8, 256>, ModbusError>)
        ensures
            r is Ok,
            frame_bytes(r->Ok_0) == holding_reply(request@, options@, flows@),
    {
        let f = request.function_code.code();
        let slave = request.slave_address;
        let start = request.start_address;
        let n = request.quantity;
        if n == 0 || n > MAX_READ_REGISTERS {
            return Ok(self.exception(slave, f, ExceptionCode::IllegalDataValue));
        }
        let mut data = frame_new();
        frame_push(&mut data, (2 * n) as u8);
        if start <= OPTIONS_END {
            if start as u32 + n as u32 > OPTIONS_END as u32 + 1 {
                return Ok(self.exception(slave, f, ExceptionCode::IllegalDataAddress));
            }
            let start_byte = 2 * start as usize;
            let end_byte = start_byte + 2 * n as usize;
            proof {
                options.lemma_len();
            }
            let bytes = options.into_bytes();
            let mut i: usize = start_byte;
            while i < end_byte
                invariant
                    start_byte <= i <= end_byte <= RECORD_LEN,
                    bytes@ == options@,
                    frame_bytes(data) == seq![(2 * n) as u8] + options@.subrange(
                        start_byte as int,
                        i as int,
                    ),
                decreases end_byte - i,
            {
                frame_push(&mut data, bytes[i]);
                i = i + 1;
                assert(frame_bytes(data) =~= seq![(2 * n) as u8] + options@.subrange(
                    start_byte as int,
                    i as int,
                ));
            }
            self.reply(slave, f, data)
        } else if FLOW_RATE <= start && start as u32 + n as u32 <= (FLOW_RATE + FLOW_REGISTERS) as u32 {
            ModbusHandler::push_flow_regs(&mut data, flows, start - FLOW_RATE, n);
            self.reply(slave, f, data)
        } else {
            Ok(self.exception(slave, f, ExceptionCode::IllegalDataAddress))
        }
    }

    /// Answers a read of input registers.
    fn read_input(&self, request: &ModbusRequest, flows: &[u32; 4]) -> (r: Result<
        heapless::Vec<u8, 256>,
        ModbusError,
    >)
        ensures
            r is Ok,
            frame_bytes(r->Ok_0) == input_reply(request@, flows@),
    {
        let f = request.function_code.code();
        let slave = request.slave_address;
        let start = request.start_address;
        let n = request.quantity;
        if n == 0 || n > MAX_READ_REGISTERS {
            return Ok(self.exception(slave, f, ExceptionCode::IllegalDataValue));
        }
        if start as u32 + n as u32 <= FLOW_REGISTERS as u32 {
            let mut data = frame_new();
            frame_push(&mut data, (2 * n) as u8);
            ModbusHandler::push_flow_regs(&mut data, flows, start, n);
            self.reply(slave, f, data)
        } else {
            Ok(self.exception(slave, f, ExceptionCode::IllegalDataAddress))
        }
    }

    /// Answers a write of one or several registers: patches the record,
    /// saves it, and echoes the address (and the value or the count); a
    /// failed save is answered with a device-failure exception.
    fn write_registers<S: ByteStorage>(
        &self,
        request: &ModbusRequest,
        options: &mut Options,
        storage: &mut S,
    ) -> (r: Result<heapless::Vec<u8, 256>, ModbusError>)
        requires
            request.function_code == FunctionCode::WriteSingleRegister || request.function_code
                == FunctionCode::WriteMultipleRegisters,
        ensures
            r is Ok,
            match write_plan(request@) {
                Err(ex) => frame_bytes(r->Ok_0) == exception_frame(
                    request.slave_address,
                    request.function_code.spec_code(),
                    ex,
                ) && *final(options) == *old(options) && final(storage).contents() == old(
                    storage,
                ).contents(),
                Ok(plan) => write_done(
                    request.slave_address,
                    request.function_code.spec_code(),
                    plan,
                    old(options)@,
                    final(options)@,
                    old(storage).contents(),
                    final(storage).contents(),
                    old(storage).reliable(),
                    frame_bytes(r->Ok_0),
                ),
            },
    {
        let f = request.function_code.code();
        let slave = request.slave_address;
        let start = request.start_address;
        let n = request.quantity;
        let payload = frame_as_slice(&request.write_data);
        let single = request.function_code == FunctionCode::WriteSingleRegister;
        if single {
            if start > OPTIONS_END {
                return Ok(self.exception(slave, f, ExceptionCode::IllegalDataAddress));
            }
            if payload.len() != 2 {
                return Ok(self.exception(slave, f, ExceptionCode::IllegalDataValue));
            }
        } else {
            if start as u32 + n as u32 > OPTIONS_END as u32 + 1 {
                return Ok(self.exception(slave, f, ExceptionCode::IllegalDataAddress));
            }
            if payload.len() != 2 * n as usize {
                return Ok(self.exception(slave, f, ExceptionCode::IllegalDataValue));
            }
        }
        let at = 2 * start as usize;
        let mut bytes = options.into_bytes();
        proof {
            old(options).lemma_len();
        }
        let mut i: usize = 0;
        while i < payload.len()
            invariant
                at + payload@.len() <= 2 * (OPTIONS_END + 1),
                i <= payload@.len(),
                old(options)@.len() == RECORD_LEN,
                bytes@.len() == RECORD_LEN,
                bytes@ == splice(old(options)@, at as int, payload@.subrange(0, i as int)),
            decreases payload@.len() - i,
        {
            bytes.set(at + i, payload[i]);
            i = i + 1;
            assert(bytes@ =~= splice(old(options)@, at as int, payload@.subrange(0, i as int)));
        }
        assert(payload@.subrange(0, payload@.len() as int) =~= payload@);
        *options = Options::from_bytes(bytes);
        if options.save(storage).is_err() {
            return Ok(self.exception(slave, f, ExceptionCode::ServerDeviceFailure));
        }
        let mut data = frame_new();
        frame_push(&mut data, ((start >> 8u16) & 0xff) as u8);
        frame_push(&mut data, (start & 0xff) as u8);
        if single {
            frame_push(&mut data, payload[0]);
            frame_push(&mut data, payload[1]);
            assert(frame_bytes(data) =~= seq![((start >> 8u16) & 0xff) as u8, (start & 0xff) as u8]
                + payload@);
        } else {
            frame_push(&mut data, ((n >> 8u16) & 0xff) as u8);
            frame_push(&mut data, (n & 0xff) as u8);
            assert(frame_bytes(data) =~= seq![((start >> 8u16) & 0xff) as u8, (start & 0xff) as u8]
                + seq![((n >> 8u16) & 0xff) as u8, (n & 0xff) as u8]);
        }
        let r = self.reply(slave, f, data);
        proof {
            let echo = reply_frame(slave, f, frame_bytes(data));
            let failure = exception_frame(slave, f, ExceptionCode::ServerDeviceFailure);
            assert(f < 0x80u8);
            assert(f | 0x80u8 != f) by (bit_vector)
                requires
                    f < 0x80u8,
            ;
            assert(echo[1] == f);
            assert(failure[1] == f | 0x80u8);
            assert(echo != failure);
        }
        r
    }

    /// Decodes `frame` and answers it. Flow values are passed as the bit
    /// patterns of IEEE-754 single-precision numbers. A frame with a function
    /// this slave does not serve is answered with the illegal-function
    /// exception; any other frame that does not decode is refused with the
    /// decoding error; neither changes anything. A decoded request is always
    /// answered with a frame.
    pub fn handle_request<S: ByteStorage>(
        &self,
        frame: &[u8],
        options: &mut Options,
        storage: &mut S,
        flow_rate: u32,
        hour_flow: u32,
        day_flow: u32,
        month_flow: u32,
    ) -> (r: Result<heapless::Vec<u8, 256>, ModbusError>)
        ensures
            match parse_outcome(self.spec_slave_address(), frame@) {
                Err(e) => *final(options) == *old(options) && final(storage).contents() == old(
                    storage,
                ).contents() && if e == ModbusError::Exception(ExceptionCode::IllegalFunction) {
                    r is Ok && frame_bytes(r->Ok_0) == exception_frame(
                        frame@[0],
                        frame@[1],
                        ExceptionCode::IllegalFunction,
                    )
                } else {
                    r == Err::<heapless::Vec<u8, 256>, ModbusError>(e)
                },
                Ok(q) => r is Ok && if q.function_code == FunctionCode::ReadHoldingRegisters {
                    frame_bytes(r->Ok_0) == holding_reply(
                        q,
                        old(options)@,
                        seq![flow_rate, hour_flow, day_flow, month_flow],
                    ) && *final(options) == *old(options) && final(storage).contents() == old(
                        storage,
                    ).contents()
                } else if q.function_code == FunctionCode::ReadInputRegisters {
                    frame_bytes(r->Ok_0) == input_reply(
                        q,
                        seq![flow_rate, hour_flow, day_flow, month_flow],
                    ) && *final(options) == *old(options) && final(storage).contents() == old(
                        storage,
                    ).contents()
                } else {
                    match write_plan(q) {
                        Err(ex) => frame_bytes(r->Ok_0) == exception_frame(
                            q.slave_address,
                            q.function_code.spec_code(),
                            ex,
                        ) && *final(options) == *old(options) && final(storage).contents()
                            == old(storage).contents(),
                        Ok(plan) => write_done(
                            q.slave_address,
                            q.function_code.spec_code(),
                            plan,
                            old(options)@,
                            final(options)@,
                            old(storage).contents(),
                            final(storage).contents(),
                            old(storage).reliable(),
                            frame_bytes(r->Ok_0),
                        ),
                    }
                },
            },
    {
        let request = match self.modbus.parse_request(frame) {
            Ok(q) => q,
            Err(ModbusError::Exception(ExceptionCode::IllegalFunction)) => {
                return Ok(self.exception(frame[0], frame[1], ExceptionCode::IllegalFunction));
            },
            Err(e) => return Err(e),
        };
        let flows: [u32; 4] = [flow_rate, hour_flow, day_flow, month_flow];
        assert(flows@ =~= seq![flow_rate, hour_flow, day_flow, month_flow]);
        match request.function_code {
            FunctionCode::ReadHoldingRegisters => self.read_holding(&request, options, &flows),
            FunctionCode::ReadInputRegisters => self.read_input(&request, &flows),
            FunctionCode::WriteSingleRegister | FunctionCode::WriteMultipleRegisters => {
                self.write_registers(&request, options, storage)
            },
            _ => Ok(
                self.exception(
                    request.slave_address,
                    request.function_code.code(),
                    ExceptionCode::IllegalFunction,
                ),
            ),
        }
    }

}

/// Read access to a history buffer: the value of a bucket and the span of
/// bucket times held.
pub trait HistoryAccess<S: ByteStorage>: Sized {
    /// The buffer is in a state its operations accept.
    spec fn valid(&self) -> bool;

    /// The value recorded for the bucket of `time`; reading does not change
    /// the device.
    fn find(&mut self, storage: &mut S, time: u32) -> (r: Result<Option<i32>, HistoryError>)
        requires
            old(self).valid(),
        ensures
            final(self).valid(),
            final(storage).contents() == old(storage).contents(),
    ;

    /// Bucket time of the oldest bucket held.
    spec fn oldest(&self) -> u32;

    /// Bucket time of the most recent bucket held.
    spec fn newest(&self) -> u32;

    /// Bucket time of the oldest bucket held.
    fn first_timestamp(&mut self) -> (r: u32)
        ensures
            r == old(self).oldest(),
            *final(self) == *old(self),
    ;

    /// Bucket time of the most recent bucket held.
    fn last_timestamp(&mut self) -> (r: u32)
        ensures
            r == old(self).newest(),
            *final(self) == *old(self),
    ;
}

impl<S: ByteStorage> HistoryAccess<S> for RingStorage {
    open spec fn valid(&self) -> bool {
        self.wf()
    }

    open spec fn oldest(&self) -> u32 {
        self.spec_first_stored()
    }

    open spec fn newest(&self) -> u32 {
        self.hdr().time_of_last
    }

    fn find(&mut self, storage: &mut S, time: u32) -> (r: Result<Option<i32>, HistoryError>) {
        RingStorage::find(self, storage, time)
    }

    fn first_timestamp(&mut self) -> u32 {
        self.first_stored_timestamp()
    }

    fn last_timestamp(&mut self) -> u32 {
        self.last_stored_timestamp()
    }
}

} // verus!
