use vstd::prelude::*;
use vstd::string::*;
use vstd::utf8::{encode_utf8, is_continuation_byte};

use rand::Rng;

use std::io::Cursor;
use std::time::Duration;

use crate::protocol::helper::{md5_digest, md5_of};
use super::image::ImageError;

verus! {

/// A message element.
pub trait MessageElement {}

/// An element that can stand in a message chain.
pub trait ChainElement {}

/// Plain text.
#[derive(Debug, Clone)]
pub struct TextElement {
    text: String,
}

impl View for TextElement {
    type V = Seq<char>;

    closed spec fn view(&self) -> Seq<char> {
        self.text@
    }
}

impl TextElement {
    pub fn new(text: String) -> (e: Self)
        ensures
            e@ == text@,
    {
        Self { text }
    }

    pub fn text(&self) -> (t: &str)
        ensures
            t@ == self@,
    {
        self.text.as_str()
    }
}

impl MessageElement for TextElement {}

impl ChainElement for TextElement {}

/// Whom a mention is for: a user, or a channel; everyone where the id is missing.
#[derive(Debug, Clone, Copy, PartialEq, Eq, Structural)]
pub enum ATTarget {
    User(Option<u32>),
    Channel(Option<u32>),
}

/// A mention of someone or of everyone.
#[derive(Debug, Clone)]
pub struct ATElement {
    target: ATTarget,
    text: String,
    /// Whether the mention only looks like one.
    dummy: bool,
}

impl View for ATElement {
    type V = (ATTarget, Seq<char>, bool);

    closed spec fn view(&self) -> (ATTarget, Seq<char>, bool) {
        (self.target, self.text@, self.dummy)
    }
}

impl ATElement {
    pub fn new(target: ATTarget, text: String, dummy: bool) -> (e: Self)
        ensures
            e@ == (target, text@, dummy),
    {
        Self { target, text, dummy }
    }

    pub fn target(&self) -> (t: &ATTarget)
        ensures
            *t == self@.0,
    {
        &self.target
    }

    pub fn is_dummy(&self) -> (d: bool)
        ensures
            d == self@.2,
    {
        self.dummy
    }

    pub fn text(&self) -> (t: &str)
        ensures
            t@ == self@.1,
    {
        self.text.as_str()
    }
}

impl MessageElement for ATElement {}

impl ChainElement for ATElement {}

/// The bytes that mark an old-style face.
pub open spec fn face_old_buf() -> Seq<u8> {
    seq![0x00u8, 0x01, 0x00, 0x04, 0x52, 0xCC, 0xF5, 0xD0]
}

/// The bytes that mark an old-style face.
pub fn face_old_buf_bytes() -> (b: [u8; 8])
    ensures
        b@ == face_old_buf(),
{
    let b = [0x00u8, 0x01, 0x00, 0x04, 0x52, 0xCC, 0xF5, 0xD0];
    assert(b@ =~= face_old_buf());
    b
}

/// The name of a classic face by its id, where it has one.
pub open spec fn face_type(id: u16) -> Option<Seq<char>> {
    match id {
        0 => Some("惊讶"@),
        1 => Some("撇嘴"@),
        2 => Some("色"@),
        3 => Some("发呆"@),
        4 => Some("得意"@),
        5 => Some("流泪"@),
        6 => Some("害羞"@),
        7 => Some("闭嘴"@),
        8 => Some("睡"@),
        9 => Some("大哭"@),
        10 => Some("尴尬"@),
        11 => Some("发怒"@),
        12 => Some("调皮"@),
        13 => Some("呲牙"@),
        14 => Some("微笑"@),
        15 => Some("难过"@),
        16 => Some("酷"@),
        18 => Some("抓狂"@),
        19 => Some("吐"@),
        20 => Some("偷笑"@),
        21 => Some("可爱"@),
        22 => Some("白眼"@),
        23 => Some("傲慢"@),
        24 => Some("饥饿"@),
        25 => Some("困"@),
        26 => Some("惊恐"@),
        27 => Some("流汗"@),
        28 => Some("憨笑"@),
        29 => Some("悠闲"@),
        30 => Some("奋斗"@),
        31 => Some("咒骂"@),
        32 => Some("疑问"@),
        33 => Some("嘘"@),
        34 => Some("晕"@),
        35 => Some("折磨"@),
        36 => Some("衰"@),
        37 => Some("骷髅"@),
        38 => Some("敲打"@),
        39 => Some("再见"@),
        41 => Some("发抖"@),
        42 => Some("爱情"@),
        43 => Some("跳跳"@),
        46 => Some("猪头"@),
        49 => Some("拥抱"@),
        53 => Some("蛋糕"@),
        54 => Some("闪电"@),
        55 => Some("炸弹"@),
        56 => Some("刀"@),
        57 => Some("足球"@),
        59 => Some("便便"@),
        60 => Some("咖啡"@),
        61 => Some("饭"@),
        63 => Some("玫瑰"@),
        64 => Some("凋谢"@),
        66 => Some("爱心"@),
        67 => Some("心碎"@),
        69 => Some("礼物"@),
        74 => Some("太阳"@),
        75 => Some("月亮"@),
        76 => Some("赞"@),
        77 => Some("踩"@),
        78 => Some("握手"@),
        79 => Some("胜利"@),
        85 => Some("飞吻"@),
        86 => Some("怄火"@),
        89 => Some("西瓜"@),
        96 => Some("冷汗"@),
        97 => Some("擦汗"@),
        98 => Some("抠鼻"@),
        99 => Some("鼓掌"@),
        100 => Some("糗大了"@),
        101 => Some("坏笑"@),
        102 => Some("左哼哼"@),
        103 => Some("右哼哼"@),
        104 => Some("哈欠"@),
        105 => Some("鄙视"@),
        106 => Some("委屈"@),
        107 => Some("快哭了"@),
        108 => Some("阴险"@),
        109 => Some("亲亲"@),
        110 => Some("吓"@),
        111 => Some("可怜"@),
        112 => Some("菜刀"@),
        113 => Some("啤酒"@),
        114 => Some("篮球"@),
        115 => Some("乒乓"@),
        116 => Some("示爱"@),
        117 => Some("瓢虫"@),
        118 => Some("抱拳"@),
        119 => Some("勾引"@),
        120 => Some("拳头"@),
        121 => Some("差劲"@),
        122 => Some("爱你"@),
        123 => Some("不"@),
        124 => Some("好"@),
        125 => Some("转圈"@),
        126 => Some("磕头"@),
        127 => Some("回头"@),
        128 => Some("跳绳"@),
        129 => Some("挥手"@),
        130 => Some("激动"@),
        131 => Some("街舞"@),
        132 => Some("献吻"@),
        133 => Some("左太极"@),
        134 => Some("右太极"@),
        136 => Some("双喜"@),
        137 => Some("鞭炮"@),
        138 => Some("灯笼"@),
        140 => Some("K歌"@),
        144 => Some("喝彩"@),
        145 => Some("祈祷"@),
        146 => Some("爆筋"@),
        147 => Some("棒棒糖"@),
        148 => Some("喝奶"@),
        151 => Some("飞机"@),
        158 => Some("钞票"@),
        168 => Some("药"@),
        169 => Some("手枪"@),
        171 => Some("茶"@),
        172 => Some("眨眼睛"@),
        173 => Some("泪奔"@),
        174 => Some("无奈"@),
        175 => Some("卖萌"@),
        176 => Some("小纠结"@),
        177 => Some("喷血"@),
        178 => Some("斜眼笑"@),
        180 => Some("惊喜"@),
        181 => Some("骚扰"@),
        182 => Some("笑哭"@),
        183 => Some("我最美"@),
        184 => Some("河蟹"@),
        185 => Some("羊驼"@),
        187 => Some("幽灵"@),
        188 => Some("蛋"@),
        190 => Some("菊花"@),
        192 => Some("红包"@),
        193 => Some("大笑"@),
        194 => Some("不开心"@),
        197 => Some("冷漠"@),
        198 => Some("呃"@),
        199 => Some("好棒"@),
        200 => Some("拜托"@),
        201 => Some("点赞"@),
        202 => Some("无聊"@),
        203 => Some("托脸"@),
        204 => Some("吃"@),
        205 => Some("送花"@),
        206 => Some("害怕"@),
        207 => Some("花痴"@),
        208 => Some("小样儿"@),
        210 => Some("飙泪"@),
        211 => Some("我不看"@),
        212 => Some("托腮"@),
        214 => Some("啵啵"@),
        215 => Some("糊脸"@),
        216 => Some("拍头"@),
        217 => Some("扯一扯"@),
        218 => Some("舔一舔"@),
        219 => Some("蹭一蹭"@),
        220 => Some("拽炸天"@),
        221 => Some("顶呱呱"@),
        222 => Some("抱抱"@),
        223 => Some("暴击"@),
        224 => Some("开枪"@),
        225 => Some("撩一撩"@),
        226 => Some("拍桌"@),
        227 => Some("拍手"@),
        228 => Some("恭喜"@),
        229 => Some("干杯"@),
        230 => Some("嘲讽"@),
        231 => Some("哼"@),
        232 => Some("佛系"@),
        233 => Some("掐一掐"@),
        234 => Some("惊呆"@),
        235 => Some("颤抖"@),
        236 => Some("啃头"@),
        237 => Some("偷看"@),
        238 => Some("扇脸"@),
        239 => Some("原谅"@),
        240 => Some("喷脸"@),
        241 => Some("生日快乐"@),
        242 => Some("头撞击"@),
        243 => Some("甩头"@),
        244 => Some("扔狗"@),
        245 => Some("加油必胜"@),
        246 => Some("加油抱抱"@),
        247 => Some("口罩护体"@),
        260 => Some("/搬砖中"@),
        261 => Some("/忙到飞起"@),
        262 => Some("/脑阔疼"@),
        263 => Some("/沧桑"@),
        264 => Some("/捂脸"@),
        265 => Some("/辣眼睛"@),
        266 => Some("/哦哟"@),
        267 => Some("/头秃"@),
        268 => Some("/问号脸"@),
        269 => Some("/暗中观察"@),
        270 => Some("/emm"@),
        271 => Some("/吃瓜"@),
        272 => Some("/呵呵哒"@),
        273 => Some("/我酸了"@),
        274 => Some("/太南了"@),
        276 => Some("/辣椒酱"@),
        277 => Some("/汪汪"@),
        278 => Some("/汗"@),
        279 => Some("/打脸"@),
        280 => Some("/击掌"@),
        281 => Some("/无眼笑"@),
        282 => Some("/敬礼"@),
        283 => Some("/狂笑"@),
        284 => Some("/面无表情"@),
        285 => Some("/摸鱼"@),
        286 => Some("/魔鬼笑"@),
        287 => Some("/哦"@),
        288 => Some("/请"@),
        289 => Some("/睁眼"@),
        290 => Some("/敲开心"@),
        291 => Some("/震惊"@),
        292 => Some("/让我康康"@),
        293 => Some("/摸锦鲤"@),
        294 => Some("/期待"@),
        295 => Some("/拿到红包"@),
        296 => Some("/真好"@),
        297 => Some("/拜谢"@),
        298 => Some("/元宝"@),
        299 => Some("/牛啊"@),
        300 => Some("/胖三斤"@),
        301 => Some("/好闪"@),
        302 => Some("/左拜年"@),
        303 => Some("/右拜年"@),
        304 => Some("/红包包"@),
        305 => Some("/右亲亲"@),
        306 => Some("/牛气冲天"@),
        307 => Some("/喵喵"@),
        308 => Some("/求红包"@),
        309 => Some("/谢红包"@),
        310 => Some("/新年烟花"@),
        311 => Some("/打call"@),
        312 => Some("/变形"@),
        313 => Some("/嗑到了"@),
        314 => Some("/仔细分析"@),
        315 => Some("/加油"@),
        316 => Some("/我没事"@),
        317 => Some("/菜狗"@),
        318 => Some("/崇拜"@),
        319 => Some("/比心"@),
        320 => Some("/庆祝"@),
        321 => Some("/老色痞"@),
        322 => Some("/拒绝"@),
        323 => Some("/嫌弃"@),
        324 => Some("/吃糖"@),
        325 => Some("/惊吓"@),
        326 => Some("/生气"@),
        327 => Some("/加一"@),
        328 => Some("/错号"@),
        329 => Some("/对号"@),
        330 => Some("/完成"@),
        331 => Some("/明白"@),
        332 => Some("/举牌牌"@),
        333 => Some("/烟花"@),
        334 => Some("/虎虎生威"@),
        335 => Some("/绿马护体"@),
        336 => Some("/豹富"@),
        337 => Some("/花朵脸"@),
        338 => Some("/我想开了"@),
        339 => Some("/舔屏"@),
        340 => Some("/热化了"@),
        _ => None,
    }
}

/// The text of an optional name.
pub open spec fn name_view(n: Option<&str>) -> Option<Seq<char>> {
    match n {
        Some(s) => Some(s@),
        None => None,
    }
}

/// Looks up the name of a face.
pub trait TryToFaceType {
    fn try_to_face_type(&self) -> Option<&'static str>;
}

impl TryToFaceType for u16 {
    /// The name of the classic face with this id (see `face_type`).
    fn try_to_face_type(&self) -> (name: Option<&'static str>)
        ensures
            name_view(name) == face_type(*self),
    {
        match *self {
            0 => Some("惊讶"),
            1 => Some("撇嘴"),
            2 => Some("色"),
            3 => Some("发呆"),
            4 => Some("得意"),
            5 => Some("流泪"),
            6 => Some("害羞"),
            7 => Some("闭嘴"),
            8 => Some("睡"),
            9 => Some("大哭"),
            10 => Some("尴尬"),
            11 => Some("发怒"),
            12 => Some("调皮"),
            13 => Some("呲牙"),
            14 => Some("微笑"),
            15 => Some("难过"),
            16 => Some("酷"),
            18 => Some("抓狂"),
            19 => Some("吐"),
            20 => Some("偷笑"),
            21 => Some("可爱"),
            22 => Some("白眼"),
            23 => Some("傲慢"),
            24 => Some("饥饿"),
            25 => Some("困"),
            26 => Some("惊恐"),
            27 => Some("流汗"),
            28 => Some("憨笑"),
            29 => Some("悠闲"),
            30 => Some("奋斗"),
            31 => Some("咒骂"),
            32 => Some("疑问"),
            33 => Some("嘘"),
            34 => Some("晕"),
            35 => Some("折磨"),
            36 => Some("衰"),
            37 => Some("骷髅"),
            38 => Some("敲打"),
            39 => Some("再见"),
            41 => Some("发抖"),
            42 => Some("爱情"),
            43 => Some("跳跳"),
            46 => Some("猪头"),
            49 => Some("拥抱"),
            53 => Some("蛋糕"),
            54 => Some("闪电"),
            55 => Some("炸弹"),
            56 => Some("刀"),
            57 => Some("足球"),
            59 => Some("便便"),
            60 => Some("咖啡"),
            61 => Some("饭"),
            63 => Some("玫瑰"),
            64 => Some("凋谢"),
            66 => Some("爱心"),
            67 => Some("心碎"),
            69 => Some("礼物"),
            74 => Some("太阳"),
            75 => Some("月亮"),
            76 => Some("赞"),
            77 => Some("踩"),
            78 => Some("握手"),
            79 => Some("胜利"),
            85 => Some("飞吻"),
            86 => Some("怄火"),
            89 => Some("西瓜"),
            96 => Some("冷汗"),
            97 => Some("擦汗"),
            98 => Some("抠鼻"),
            99 => Some("鼓掌"),
            100 => Some("糗大了"),
            101 => Some("坏笑"),
            102 => Some("左哼哼"),
            103 => Some("右哼哼"),
            104 => Some("哈欠"),
            105 => Some("鄙视"),
            106 => Some("委屈"),
            107 => Some("快哭了"),
            108 => Some("阴险"),
            109 => Some("亲亲"),
            110 => Some("吓"),
            111 => Some("可怜"),
            112 => Some("菜刀"),
            113 => Some("啤酒"),
            114 => Some("篮球"),
            115 => Some("乒乓"),
            116 => Some("示爱"),
            117 => Some("瓢虫"),
            118 => Some("抱拳"),
            119 => Some("勾引"),
            120 => Some("拳头"),
            121 => Some("差劲"),
            122 => Some("爱你"),
            123 => Some("不"),
            124 => Some("好"),
            125 => Some("转圈"),
            126 => Some("磕头"),
            127 => Some("回头"),
            128 => Some("跳绳"),
            129 => Some("挥手"),
            130 => Some("激动"),
            131 => Some("街舞"),
            132 => Some("献吻"),
            133 => Some("左太极"),
            134 => Some("右太极"),
            136 => Some("双喜"),
            137 => Some("鞭炮"),
            138 => Some("灯笼"),
            140 => Some("K歌"),
            144 => Some("喝彩"),
            145 => Some("祈祷"),
            146 => Some("爆筋"),
            147 => Some("棒棒糖"),
            148 => Some("喝奶"),
            151 => Some("飞机"),
            158 => Some("钞票"),
            168 => Some("药"),
            169 => Some("手枪"),
            171 => Some("茶"),
            172 => Some("眨眼睛"),
            173 => Some("泪奔"),
            174 => Some("无奈"),
            175 => Some("卖萌"),
            176 => Some("小纠结"),
            177 => Some("喷血"),
            178 => Some("斜眼笑"),
            180 => Some("惊喜"),
            181 => Some("骚扰"),
            182 => Some("笑哭"),
            183 => Some("我最美"),
            184 => Some("河蟹"),
            185 => Some("羊驼"),
            187 => Some("幽灵"),
            188 => Some("蛋"),
            190 => Some("菊花"),
            192 => Some("红包"),
            193 => Some("大笑"),
            194 => Some("不开心"),
            197 => Some("冷漠"),
            198 => Some("呃"),
            199 => Some("好棒"),
            200 => Some("拜托"),
            201 => Some("点赞"),
            202 => Some("无聊"),
            203 => Some("托脸"),
            204 => Some("吃"),
            205 => Some("送花"),
            206 => Some("害怕"),
            207 => Some("花痴"),
            208 => Some("小样儿"),
            210 => Some("飙泪"),
            211 => Some("我不看"),
            212 => Some("托腮"),
            214 => Some("啵啵"),
            215 => Some("糊脸"),
            216 => Some("拍头"),
            217 => Some("扯一扯"),
            218 => Some("舔一舔"),
            219 => Some("蹭一蹭"),
            220 => Some("拽炸天"),
            221 => Some("顶呱呱"),
            222 => Some("抱抱"),
            223 => Some("暴击"),
            224 => Some("开枪"),
            225 => Some("撩一撩"),
            226 => Some("拍桌"),
            227 => Some("拍手"),
            228 => Some("恭喜"),
            229 => Some("干杯"),
            230 => Some("嘲讽"),
            231 => Some("哼"),
            232 => Some("佛系"),
            233 => Some("掐一掐"),
            234 => Some("惊呆"),
            235 => Some("颤抖"),
            236 => Some("啃头"),
            237 => Some("偷看"),
            238 => Some("扇脸"),
            239 => Some("原谅"),
            240 => Some("喷脸"),
            241 => Some("生日快乐"),
            242 => Some("头撞击"),
            243 => Some("甩头"),
            244 => Some("扔狗"),
            245 => Some("加油必胜"),
            246 => Some("加油抱抱"),
            247 => Some("口罩护体"),
            260 => Some("/搬砖中"),
            261 => Some("/忙到飞起"),
            262 => Some("/脑阔疼"),
            263 => Some("/沧桑"),
            264 => Some("/捂脸"),
            265 => Some("/辣眼睛"),
            266 => Some("/哦哟"),
            267 => Some("/头秃"),
            268 => Some("/问号脸"),
            269 => Some("/暗中观察"),
            270 => Some("/emm"),
            271 => Some("/吃瓜"),
            272 => Some("/呵呵哒"),
            273 => Some("/我酸了"),
            274 => Some("/太南了"),
            276 => Some("/辣椒酱"),
            277 => Some("/汪汪"),
            278 => Some("/汗"),
            279 => Some("/打脸"),
            280 => Some("/击掌"),
            281 => Some("/无眼笑"),
            282 => Some("/敬礼"),
            283 => Some("/狂笑"),
            284 => Some("/面无表情"),
            285 => Some("/摸鱼"),
            286 => Some("/魔鬼笑"),
            287 => Some("/哦"),
            288 => Some("/请"),
            289 => Some("/睁眼"),
            290 => Some("/敲开心"),
            291 => Some("/震惊"),
            292 => Some("/让我康康"),
            293 => Some("/摸锦鲤"),
            294 => Some("/期待"),
            295 => Some("/拿到红包"),
            296 => Some("/真好"),
            297 => Some("/拜谢"),
            298 => Some("/元宝"),
            299 => Some("/牛啊"),
            300 => Some("/胖三斤"),
            301 => Some("/好闪"),
            302 => Some("/左拜年"),
            303 => Some("/右拜年"),
            304 => Some("/红包包"),
            305 => Some("/右亲亲"),
            306 => Some("/牛气冲天"),
            307 => Some("/喵喵"),
            308 => Some("/求红包"),
            309 => Some("/谢红包"),
            310 => Some("/新年烟花"),
            311 => Some("/打call"),
            312 => Some("/变形"),
            313 => Some("/嗑到了"),
            314 => Some("/仔细分析"),
            315 => Some("/加油"),
            316 => Some("/我没事"),
            317 => Some("/菜狗"),
            318 => Some("/崇拜"),
            319 => Some("/比心"),
            320 => Some("/庆祝"),
            321 => Some("/老色痞"),
            322 => Some("/拒绝"),
            323 => Some("/嫌弃"),
            324 => Some("/吃糖"),
            325 => Some("/惊吓"),
            326 => Some("/生气"),
            327 => Some("/加一"),
            328 => Some("/错号"),
            329 => Some("/对号"),
            330 => Some("/完成"),
            331 => Some("/明白"),
            332 => Some("/举牌牌"),
            333 => Some("/烟花"),
            334 => Some("/虎虎生威"),
            335 => Some("/绿马护体"),
            336 => Some("/豹富"),
            337 => Some("/花朵脸"),
            338 => Some("/我想开了"),
            339 => Some("/舔屏"),
            340 => Some("/热化了"),
            _ => None,
        }
    }
}


/// The text of an optional string.
pub open spec fn opt_text(o: Option<String>) -> Option<Seq<char>> {
    match o {
        Some(s) => Some(s@),
        None => None,
    }
}

/// The bytes of an optional vector.
pub open spec fn opt_bytes(o: Option<Vec<u8>>) -> Option<Seq<u8>> {
    match o {
        Some(v) => Some(v@),
        None => None,
    }
}

fn opt_string_ref(o: &Option<String>) -> (r: Option<&String>)
    ensures
        match r {
            Some(s) => o matches Some(t) && s@ == t@,
            None => o is None,
        },
{
    match o {
        Some(s) => Some(s),
        None => None,
    }
}

/// A classic face.
#[derive(Debug, Clone)]
pub struct FaceElement {
    id: u16,
    text: Option<String>,
}

impl View for FaceElement {
    type V = (u16, Option<Seq<char>>);

    closed spec fn view(&self) -> (u16, Option<Seq<char>>) {
        (self.id, opt_text(self.text))
    }
}

impl FaceElement {
    pub fn new(id: u16, text: Option<String>) -> (e: Self)
        ensures
            e@ == (id, opt_text(text)),
    {
        Self { id, text }
    }

    pub fn id(&self) -> (id: u16)
        ensures
            id == self@.0,
    {
        self.id
    }

    pub fn text(&self) -> (t: Option<&String>)
        ensures
            match t {
                Some(s) => self@.1 == Some(s@),
                None => self@.1 is None,
            },
    {
        opt_string_ref(&self.text)
    }
}

impl MessageElement for FaceElement {}

impl ChainElement for FaceElement {}

/// A small face.
#[derive(Debug, Clone)]
pub struct SFaceElement {
    id: u16,
    text: Option<String>,
}

impl View for SFaceElement {
    type V = (u16, Option<Seq<char>>);

    closed spec fn view(&self) -> (u16, Option<Seq<char>>) {
        (self.id, opt_text(self.text))
    }
}

impl SFaceElement {
    pub fn new(id: u16, text: Option<String>) -> (e: Self)
        ensures
            e@ == (id, opt_text(text)),
    {
        Self { id, text }
    }

    pub fn id(&self) -> (id: u16)
        ensures
            id == self@.0,
    {
        self.id
    }

    pub fn text(&self) -> (t: Option<&String>)
        ensures
            match t {
                Some(s) => self@.1 == Some(s@),
                None => self@.1 is None,
            },
    {
        opt_string_ref(&self.text)
    }
}

impl MessageElement for SFaceElement {}

impl ChainElement for SFaceElement {}

/// A sticker face (a "big face"): the file it is sent as, its text, and the data of a magic face.
#[derive(Debug, Clone)]
pub struct BFaceElement {
    file: Vec<u8>,
    text: Option<String>,
    magic: Option<Vec<u8>>,
}

impl View for BFaceElement {
    type V = (Seq<u8>, Option<Seq<char>>, Option<Seq<u8>>);

    closed spec fn view(&self) -> (Seq<u8>, Option<Seq<char>>, Option<Seq<u8>>) {
        (self.file@, opt_text(self.text), opt_bytes(self.magic))
    }
}

/// The file of the dice face.
pub open spec fn dice_file() -> Seq<u8> {
    seq![0x48u8, 0x23, 0xd3, 0xad, 0xb1, 0x5d, 0xf0, 0x80, 0x14, 0xce, 0x5d, 0x67, 0x96, 0xb7,
        0x6e, 0xe1, 0x34, 0x30, 0x39, 0x65, 0x32, 0x61, 0x36, 0x39, 0x62, 0x31, 0x36, 0x39,
        0x31, 0x38, 0x66, 0x39, 0x11, 0x46]
}

/// The file of the rock-paper-scissors face.
pub open spec fn rps_file() -> Seq<u8> {
    seq![0x83u8, 0xc8, 0xa2, 0x93, 0xae, 0x65, 0xca, 0x14, 0x0f, 0x34, 0x81, 0x20, 0xa7, 0x74,
        0x48, 0xee, 0x37, 0x64, 0x65, 0x33, 0x39, 0x66, 0x65, 0x62, 0x63, 0x66, 0x34, 0x35,
        0x65, 0x36, 0x64, 0x62, 0x11, 0x41]
}

/// The data of a magic face showing `n`: `rscType?1;value=` and the digit.
pub open spec fn magic_value(n: u8) -> Seq<u8> {
    seq![0x72u8, 0x73, 0x63, 0x54, 0x79, 0x70, 0x65, 0x3f, 0x31, 0x3b, 0x76, 0x61, 0x6c, 0x75,
        0x65, 0x3d, (0x30 + n) as u8]
}

/// `Rng::gen_range(0..n)` on the thread's generator: a number below `n`, by chance.
#[verifier::external_body]
fn random_below(n: u8) -> (r: u8)
    requires
        n > 0,
    ensures
        r < n,
{
    rand::thread_rng().gen_range(0..n)
}

fn magic_value_bytes(n: u8) -> (v: Vec<u8>)
    requires
        n < 10,
    ensures
        v@ == magic_value(n),
{
    let v = vec![0x72u8, 0x73, 0x63, 0x54, 0x79, 0x70, 0x65, 0x3f, 0x31, 0x3b, 0x76, 0x61, 0x6c, 0x75, 0x65, 0x3d, 0x30 + n];
    assert(v@ =~= magic_value(n));
    v
}

impl BFaceElement {
    pub fn new(file: Vec<u8>, text: Option<String>, magic: Option<Vec<u8>>) -> (e: Self)
        ensures
            e@ == (file@, opt_text(text), opt_bytes(magic)),
    {
        Self { file, text, magic }
    }

    /// The dice face, showing a number from 0 to 5 drawn at random.
    pub fn dice() -> (e: Self)
        ensures
            exists|n: u8| n < 6 && e@ == (dice_file(), Some("骰子"@), Some(magic_value(n))),
    {
        let number = random_below(6);
        let file = vec![0x48u8, 0x23, 0xd3, 0xad, 0xb1, 0x5d, 0xf0, 0x80, 0x14, 0xce, 0x5d, 0x67, 0x96, 0xb7,
            0x6e, 0xe1, 0x34, 0x30, 0x39, 0x65, 0x32, 0x61, 0x36, 0x39, 0x62, 0x31, 0x36, 0x39,
            0x31, 0x38, 0x66, 0x39, 0x11, 0x46];
        assert(file@ =~= dice_file());
        let e = Self::new(file, Some(String::from_str("骰子")), Some(magic_value_bytes(number)));
        assert(e@ == (dice_file(), Some("骰子"@), Some(magic_value(number))));
        e
    }

    /// The rock-paper-scissors face, showing a hand from 0 to 2 drawn at random.
    pub fn rps() -> (e: Self)
        ensures
            exists|n: u8| n < 3 && e@ == (rps_file(), Some("猜拳"@), Some(magic_value(n))),
    {
        let number = random_below(3);
        let file = vec![0x83u8, 0xc8, 0xa2, 0x93, 0xae, 0x65, 0xca, 0x14, 0x0f, 0x34, 0x81, 0x20, 0xa7, 0x74,
            0x48, 0xee, 0x37, 0x64, 0x65, 0x33, 0x39, 0x66, 0x65, 0x62, 0x63, 0x66, 0x34, 0x35,
            0x65, 0x36, 0x64, 0x62, 0x11, 0x41];
        assert(file@ =~= rps_file());
        let e = Self::new(file, Some(String::from_str("猜拳")), Some(magic_value_bytes(number)));
        assert(e@ == (rps_file(), Some("猜拳"@), Some(magic_value(number))));
        e
    }

    pub fn file(&self) -> (f: &[u8])
        ensures
            f@ == self@.0,
    {
        self.file.as_slice()
    }

    pub fn text(&self) -> (t: Option<&String>)
        ensures
            match t {
                Some(s) => self@.1 == Some(s@),
                None => self@.1 is None,
            },
    {
        opt_string_ref(&self.text)
    }

    pub fn magic(&self) -> (m: Option<&Vec<u8>>)
        ensures
            match m {
                Some(v) => self@.2 == Some(v@),
                None => self@.2 is None,
            },
    {
        match &self.magic {
            Some(v) => Some(v),
            None => None,
        }
    }
}

impl MessageElement for BFaceElement {}

impl ChainElement for BFaceElement {}


/// The image formats told apart when an image is read.
#[derive(Debug, Clone, Copy, PartialEq, Eq, Structural)]
pub enum ImageKind {
    Png,
    Jpeg,
    Gif,
    WebP,
    Bmp,
    Other,
}

/// The format the `image` crate recognises from the first bytes of an image. It depends on the
/// bytes alone.
pub uninterp spec fn guessed_kind(data: Seq<u8>) -> Option<ImageKind>;

/// The width and height the `image` crate reads from an image of a recognised format. They
/// depend on the bytes alone.
pub uninterp spec fn decoded_dimensions(data: Seq<u8>) -> Option<(u32, u32)>;

/// `image::guess_format`: the format of the image by its first bytes, `None` where none is
/// recognised.
#[verifier::external_body]
fn guess_image_kind(data: &[u8]) -> (kind: Option<ImageKind>)
    ensures
        kind == guessed_kind(data@),
{
    match image::guess_format(data) {
        Ok(image::ImageFormat::Png) => Some(ImageKind::Png),
        Ok(image::ImageFormat::Jpeg) => Some(ImageKind::Jpeg),
        Ok(image::ImageFormat::Gif) => Some(ImageKind::Gif),
        Ok(image::ImageFormat::WebP) => Some(ImageKind::WebP),
        Ok(image::ImageFormat::Bmp) => Some(ImageKind::Bmp),
        Ok(_) => Some(ImageKind::Other),
        Err(_) => None,
    }
}

/// `image::io::Reader::into_dimensions` on a reader of the bytes whose format was guessed by
/// `with_guessed_format`: the width and height, `None` where the format is not recognised or
/// the header cannot be read.
#[verifier::external_body]
fn read_image_dimensions(data: &[u8]) -> (dims: Option<(u32, u32)>)
    ensures
        dims == decoded_dimensions(data@),
{
    match image::io::Reader::new(Cursor::new(data)).with_guessed_format() {
        Ok(reader) => reader.into_dimensions().ok(),
        Err(_) => None,
    }
}

/// The bytes that a base64 text (standard alphabet, with padding) stands for, `None` where the
/// text is not base64. It depends on the text alone.
pub uninterp spec fn base64_decoded(text: Seq<u8>) -> Option<Seq<u8>>;

/// `base64::decode`: the bytes the text stands for (see `base64_decoded`), `None` for an error.
#[verifier::external_body]
fn decode_base64(text: &[u8]) -> (r: Option<Vec<u8>>)
    ensures
        match r {
            Some(v) => base64_decoded(text@) == Some(v@),
            None => base64_decoded(text@) is None,
        },
{
    base64::decode(text).ok()
}

/// The addresses whose scheme (nine bytes, `base64://`) can be cut off: nine bytes at least, and
/// a character starts after them.
pub open spec fn scheme_cut_ok(s: Seq<char>) -> bool {
    let b = encode_utf8(s);
    b.len() >= 9 && (b.len() == 9 || !is_continuation_byte(b[9]))
}

fn copy_bytes_from(s: &[u8], from: usize) -> (v: Vec<u8>)
    requires
        from <= s@.len(),
    ensures
        v@ == s@.subrange(from as int, s@.len() as int),
{
    let mut v: Vec<u8> = Vec::new();
    let mut i = from;
    while i < s.len()
        invariant
            from <= i <= s@.len(),
            v@ == s@.subrange(from as int, i as int),
        decreases s@.len() - i,
    {
        v.push(s[i]);
        i = i + 1;
        assert(v@ =~= s@.subrange(from as int, i as int));
    }
    v
}

/// Whether `from_base64` reads `base64_data` without fault (see `scheme_cut_ok`).
pub fn base64_address_ok(base64_data: &str) -> (b: bool)
    ensures
        b == scheme_cut_ok(base64_data@),
{
    let bytes = base64_data.as_bytes();
    bytes.len() >= 9 && (bytes.len() == 9 || !(0x80 <= bytes[9] && bytes[9] <= 0xbf))
}

/// The number of an image format on the wire; an unknown format counts as JPEG.
pub open spec fn image_format_code(kind: Option<ImageKind>) -> u32 {
    match kind {
        Some(ImageKind::Png) => 1001,
        Some(ImageKind::Jpeg) => 1000,
        Some(ImageKind::Gif) => 2000,
        Some(ImageKind::WebP) => 1002,
        Some(ImageKind::Bmp) => 1005,
        _ => 1000,
    }
}

/// The number of an image format on the wire (see `image_format_code`).
pub fn format_code(kind: Option<ImageKind>) -> (code: u32)
    ensures
        code == image_format_code(kind),
{
    match kind {
        Some(ImageKind::Png) => 1001,
        Some(ImageKind::Jpeg) => 1000,
        Some(ImageKind::Gif) => 2000,
        Some(ImageKind::WebP) => 1002,
        Some(ImageKind::Bmp) => 1005,
        _ => 1000,
    }
}

/// An image: its bytes, the file id the server gives it, its format number (JPEG 1000, PNG
/// 1001, WebP 1002, BMP 1005, GIF 2000, face 4), size, dimensions, digest, and how it is sent.
#[derive(Debug, Clone)]
pub struct ImageElement {
    data: Vec<u8>,
    fid: Option<Vec<u8>>,
    format: u32,
    size: u64,
    width: u32,
    height: u32,
    md5: [u8; 16],
    cache: bool,
    as_face: bool,
    origin: bool,
}

/// The fields of an image element.
pub struct ImageView {
    pub data: Seq<u8>,
    pub fid: Option<Seq<u8>>,
    pub format: u32,
    pub size: u64,
    pub width: u32,
    pub height: u32,
    pub md5: Seq<u8>,
    pub cache: bool,
    pub as_face: bool,
    pub origin: bool,
}

impl View for ImageElement {
    type V = ImageView;

    closed spec fn view(&self) -> ImageView {
        ImageView {
            data: self.data@,
            fid: opt_bytes(self.fid),
            format: self.format,
            size: self.size,
            width: self.width,
            height: self.height,
            md5: self.md5@,
            cache: self.cache,
            as_face: self.as_face,
            origin: self.origin,
        }
    }
}

/// An image made of `data` with the given format and dimensions: no file id yet, the size the
/// number of bytes, the digest that of the bytes, and the options off where they are not given.
pub open spec fn image_made(e: ImageView, data: Seq<u8>, format: u32, width: u32, height: u32, cache: Option<bool>, as_face: Option<bool>, origin: Option<bool>) -> bool {
    &&& e.data == data
    &&& e.fid is None
    &&& e.format == format
    &&& e.size == data.len() as u64
    &&& e.width == width
    &&& e.height == height
    &&& e.md5 == md5_of(data)
    &&& e.cache == (cache == Some(true))
    &&& e.as_face == (as_face == Some(true))
    &&& e.origin == (origin == Some(true))
}

impl ImageElement {
    /// An image of known format and dimensions (see `image_made`).
    pub fn from_parts(data: Vec<u8>, format: u32, width: u32, height: u32, cache: Option<bool>, as_face: Option<bool>, origin: Option<bool>) -> (e: Self)
        ensures
            image_made(e@, data@, format, width, height, cache, as_face, origin),
    {
        let md5 = md5_digest(data.as_slice());
        let size = data.len() as u64;
        Self {
            format,
            fid: None,
            size,
            data,
            md5,
            width,
            height,
            cache: match cache { Some(b) => b, None => false },
            as_face: match as_face { Some(b) => b, None => false },
            origin: match origin { Some(b) => b, None => false },
        }
    }

    /// An image read from its bytes: the format is the one given, else the one recognised; the
    /// dimensions are read from the bytes, and an image whose dimensions cannot be read is an
    /// error.
    pub fn new(data: Vec<u8>, force_format: Option<u32>, cache: Option<bool>, as_face: Option<bool>, origin: Option<bool>) -> (r: Result<Self, ImageError>)
        ensures
            match decoded_dimensions(data@) {
                None => r == Err::<Self, ImageError>(ImageError::UnreadableImage),
                Some((w, h)) => r matches Ok(e) && image_made(e@, data@,
                    match force_format { Some(f) => f, None => image_format_code(guessed_kind(data@)) },
                    w, h, cache, as_face, origin),
            },
    {
        let kind = guess_image_kind(data.as_slice());
        let format = match force_format {
            Some(f) => f,
            None => format_code(kind),
        };
        match read_image_dimensions(data.as_slice()) {
            Some((width, height)) => Ok(ImageElement::from_parts(data, format, width, height, cache, as_face, origin)),
            None => Err(ImageError::UnreadableImage),
        }
    }

    /// An image given as a `base64://` address: the text after the nine bytes of the scheme is
    /// decoded (see `base64_decoded`) and read as `new` reads bytes; text that is not base64 is
    /// an error.
    pub fn from_base64(base64_data: &str, cache: Option<bool>, as_face: Option<bool>, origin: Option<bool>) -> (r: Result<Self, ImageError>)
        requires
            scheme_cut_ok(base64_data@),
        ensures
            match base64_decoded(encode_utf8(base64_data@).subrange(9, encode_utf8(base64_data@).len() as int)) {
                None => r == Err::<Self, ImageError>(ImageError::InvalidBase64),
                Some(data) => match decoded_dimensions(data) {
                    None => r == Err::<Self, ImageError>(ImageError::UnreadableImage),
                    Some((w, h)) => r matches Ok(e) && image_made(e@, data, image_format_code(guessed_kind(data)), w, h, cache, as_face, origin),
                },
            },
    {
        let bytes = base64_data.as_bytes();
        let text = copy_bytes_from(bytes, 9);
        match decode_base64(text.as_slice()) {
            None => Err(ImageError::InvalidBase64),
            Some(data) => ImageElement::new(data, None, cache, as_face, origin),
        }
    }

    pub fn data(&self) -> (d: &[u8])
        ensures
            d@ == self@.data,
    {
        self.data.as_slice()
    }

    pub fn format(&self) -> (f: u32)
        ensures
            f == self@.format,
    {
        self.format
    }

    pub fn size(&self) -> (s: u64)
        ensures
            s == self@.size,
    {
        self.size
    }

    pub fn width(&self) -> (w: u32)
        ensures
            w == self@.width,
    {
        self.width
    }

    pub fn height(&self) -> (h: u32)
        ensures
            h == self@.height,
    {
        self.height
    }

    pub fn md5(&self) -> (m: [u8; 16])
        ensures
            m@ == self@.md5,
    {
        self.md5
    }

    pub fn is_cache(&self) -> (b: bool)
        ensures
            b == self@.cache,
    {
        self.cache
    }

    pub fn is_as_face(&self) -> (b: bool)
        ensures
            b == self@.as_face,
    {
        self.as_face
    }

    pub fn is_origin(&self) -> (b: bool)
        ensures
            b == self@.origin,
    {
        self.origin
    }

    pub fn fid(&self) -> (f: Option<&Vec<u8>>)
        ensures
            match f {
                Some(v) => self@.fid == Some(v@),
                None => self@.fid is None,
            },
    {
        match &self.fid {
            Some(v) => Some(v),
            None => None,
        }
    }

    /// Sets the file id; nothing else changes.
    pub fn set_fid(&mut self, fid: Option<Vec<u8>>)
        ensures
            final(self)@ == (ImageView { fid: opt_bytes(fid), ..old(self)@ }),
    {
        self.fid = fid;
    }
}

impl MessageElement for ImageElement {}

impl ChainElement for ImageElement {}

/// A flash image.
#[derive(Debug, Clone)]
pub struct FlashImageElement {
    pub typee: &'static str,
    pub image: ImageElement,
}

impl FlashImageElement {
    pub fn new(image: ImageElement) -> (e: Self)
        ensures
            e.typee@ == "flash"@,
            e.image == image,
    {
        Self { typee: "flash", image }
    }
}

impl MessageElement for FlashImageElement {}

/// A voice message.
#[derive(Debug, Clone)]
pub struct PTTElement {
    pub typee: &'static str,
    pub file: Vec<u8>,
    pub url: Option<String>,
    pub md5: Option<String>,
    pub size: Option<usize>,
    pub seconds: Option<usize>,
}

impl PTTElement {
    pub fn new(file: Vec<u8>, url: Option<String>, md5: Option<String>, size: Option<usize>, seconds: Option<usize>) -> (e: Self)
        ensures
            e.typee@ == "record"@,
            e.file == file && e.url == url && e.md5 == md5 && e.size == size && e.seconds == seconds,
    {
        Self { typee: "record", file, url, md5, size, seconds }
    }
}

impl MessageElement for PTTElement {}

/// A video.
#[derive(Debug, Clone)]
pub struct VideoElement {
    pub typee: &'static str,
    pub file: String,
    pub name: Option<String>,
    pub fid: Option<String>,
    pub md5: Option<String>,
    pub size: Option<usize>,
    pub seconds: Option<usize>,
}

impl VideoElement {
    pub fn new(file: String, name: Option<String>, fid: Option<String>, md5: Option<String>, size: Option<usize>, seconds: Option<usize>) -> (e: Self)
        ensures
            e.typee@ == "video"@,
            e.file == file && e.name == name && e.fid == fid && e.md5 == md5 && e.size == size && e.seconds == seconds,
    {
        Self { typee: "video", file, name, fid, md5, size, seconds }
    }
}

impl MessageElement for VideoElement {}

/// A shared link.
#[derive(Debug, Clone)]
pub struct ShareElement {
    pub typee: &'static str,
    pub url: String,
    pub title: String,
    pub content: Option<String>,
    pub image: Option<String>,
}

impl ShareElement {
    pub fn new(url: String, title: String, content: Option<String>, image: Option<String>) -> (e: Self)
        ensures
            e.typee@ == "share"@,
            e.url == url && e.title == title && e.content == content && e.image == image,
    {
        Self { typee: "share", url, title, content, image }
    }
}

impl MessageElement for ShareElement {}

/// XML data.
#[derive(Debug, Clone)]
pub struct XMLElement {
    pub typee: &'static str,
    pub data: String,
    pub id: Option<usize>,
}

impl XMLElement {
    pub fn new(data: String, id: Option<usize>) -> (e: Self)
        ensures
            e.typee@ == "xml"@,
            e.data == data && e.id == id,
    {
        Self { typee: "xml", data, id }
    }
}

impl MessageElement for XMLElement {}

/// A poke.
#[derive(Debug, Clone)]
pub struct PokeElement {
    pub typee: &'static str,
    pub id: usize,
    pub text: Option<String>,
}

impl PokeElement {
    pub fn new(id: usize, text: Option<String>) -> (e: Self)
        ensures
            e.typee@ == "poke"@,
            e.id == id && e.text == text,
    {
        Self { typee: "poke", id, text }
    }
}

impl MessageElement for PokeElement {}

/// A special message that the official client cannot show.
#[derive(Debug, Clone)]
pub struct MiraiElement {
    pub typee: &'static str,
    pub id: String,
}

impl MiraiElement {
    pub fn new(id: String) -> (e: Self)
        ensures
            e.typee@ == "mirai"@,
            e.id == id,
    {
        Self { typee: "mirai", id }
    }
}

impl MessageElement for MiraiElement {}

impl ChainElement for MiraiElement {}

/// `Duration::clone`: `Duration` is `Copy`, so the clone is the value itself.
pub assume_specification[ <Duration as Clone>::clone ](d: &Duration) -> (r: Duration)
    ensures
        r == *d,
;

/// A received file.
#[derive(Debug, Clone)]
pub struct FileElement {
    pub typee: &'static str,
    pub name: String,
    pub fid: String,
    pub md5: String,
    pub size: usize,
    pub duration: Duration,
}

impl FileElement {
    pub fn new(name: String, fid: String, md5: String, size: usize, duration: Duration) -> (e: Self)
        ensures
            e.typee@ == "file"@,
            e.name == name && e.fid == fid && e.md5 == md5 && e.size == size && e.duration == duration,
    {
        Self { typee: "file", name, fid, md5, size, duration }
    }
}

impl MessageElement for FileElement {}

/// An old-style reply.
#[derive(Debug, Clone)]
pub struct ReplyElement {
    pub typee: &'static str,
    pub id: String,
}

impl ReplyElement {
    pub fn new(id: String) -> (e: Self)
        ensures
            e.typee@ == "reply"@,
            e.id == id,
    {
        Self { typee: "reply", id }
    }
}

impl MessageElement for ReplyElement {}

impl ChainElement for ReplyElement {}

/// A message that can be quoted in a reply.
#[derive(Debug, Clone)]
pub struct Quotable<T: MessageElement> {
    pub user_id: u32,
    pub time: usize,
    pub seq: usize,
    /// Needed to reply in a private chat.
    pub rand: usize,
    pub message: T,
}

impl<T: MessageElement> Quotable<T> {
    pub fn new(user_id: u32, time: usize, seq: usize, rand: usize, message: T) -> (q: Self)
        ensures
            q.user_id == user_id && q.time == time && q.seq == seq && q.rand == rand && q.message == message,
    {
        Self { user_id, time, seq, rand, message }
    }
}

/// A message to forward.
#[derive(Debug, Clone)]
pub struct Forawrdable<T: MessageElement> {
    pub user_id: u32,
    pub message: T,
    pub nickname: String,
    pub time: usize,
}

impl<T: MessageElement> Forawrdable<T> {
    pub fn new(user_id: u32, message: T, nickname: String, time: usize) -> (f: Self)
        ensures
            f.user_id == user_id && f.message == message && f.nickname == nickname && f.time == time,
    {
        Self { user_id, message, nickname, time }
    }
}

} // verus!
