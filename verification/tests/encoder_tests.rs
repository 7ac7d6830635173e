use fuels_core::ABIEncoder;
use fuels_core::EnumVariants;
use fuels_core::ParamType;
use fuels_core::Token;
use sha2::Digest;
use sha2::Sha256;

#[test]
fn encode_function_signature() {
    let sway_fn = "entry_one(u64)";

    let result = ABIEncoder::encode_function_selector(sway_fn.as_bytes());

    println!(
        "Encoded function selector for ({}): {:#0x?}",
        sway_fn, result
    );

    assert_eq!(result, [0x0, 0x0, 0x0, 0x0, 0x0c, 0x36, 0xcb, 0x9c]);
}

#[test]
fn encode_function_with_u32_type() {
    let sway_fn = "entry_one(u32)";
    let arg = Token::U32(u32::MAX);

    let args: Vec<Token> = vec![arg];

    let expected_encoded_abi = [0x0, 0x0, 0x0, 0x0, 0xff, 0xff, 0xff, 0xff];

    let expected_function_selector = [0x0, 0x0, 0x0, 0x0, 0xb7, 0x9e, 0xf7, 0x43];

    let mut abi_encoder = ABIEncoder::new_with_fn_selector(sway_fn.as_bytes());

    let encoded = abi_encoder.encode(&args).unwrap();

    println!("Encoded ABI for ({}): {:#0x?}", sway_fn, encoded);

    assert_eq!(hex::encode(expected_encoded_abi), hex::encode(encoded));
    assert_eq!(abi_encoder.function_selector, expected_function_selector);
}

#[test]
fn encode_function_with_u32_type_multiple_args() {
    let sway_fn = "takes_two(u32,u32)";
    let first = Token::U32(u32::MAX);
    let second = Token::U32(u32::MAX);

    let args: Vec<Token> = vec![first, second];

    let expected_encoded_abi = [
        0x0, 0x0, 0x0, 0x0, 0xff, 0xff, 0xff, 0xff, 0x0, 0x0, 0x0, 0x0, 0xff, 0xff, 0xff, 0xff,
    ];

    let expected_function_selector = [0x0, 0x0, 0x0, 0x0, 0xa7, 0x07, 0xb0, 0x8e];

    let mut abi_encoder = ABIEncoder::new_with_fn_selector(sway_fn.as_bytes());

    let encoded = abi_encoder.encode(&args).unwrap();

    println!("Encoded ABI for ({}): {:#0x?}", sway_fn, encoded);

    assert_eq!(hex::encode(expected_encoded_abi), hex::encode(encoded));
    assert_eq!(abi_encoder.function_selector, expected_function_selector);
}

#[test]
fn encode_function_with_u64_type() {
    let sway_fn = "entry_one(u64)";
    let arg = Token::U64(u64::MAX);

    let args: Vec<Token> = vec![arg];

    let expected_encoded_abi = [0xff, 0xff, 0xff, 0xff, 0xff, 0xff, 0xff, 0xff];

    let expected_function_selector = [0x0, 0x0, 0x0, 0x0, 0x0c, 0x36, 0xcb, 0x9c];

    let mut abi_encoder = ABIEncoder::new_with_fn_selector(sway_fn.as_bytes());

    let encoded = abi_encoder.encode(&args).unwrap();

    println!("Encoded ABI for ({}): {:#0x?}", sway_fn, encoded);

    assert_eq!(hex::encode(expected_encoded_abi), hex::encode(encoded));
    assert_eq!(abi_encoder.function_selector, expected_function_selector);
}

#[test]
fn encode_function_with_bool_type() {
    let sway_fn = "bool_check(bool)";
    let arg = Token::Bool(true);

    let args: Vec<Token> = vec![arg];

    let expected_encoded_abi = [0x0, 0x0, 0x0, 0x0, 0x0, 0x0, 0x0, 0x1];

    let expected_function_selector = [0x0, 0x0, 0x0, 0x0, 0x66, 0x8f, 0xff, 0x58];

    let mut abi_encoder = ABIEncoder::new_with_fn_selector(sway_fn.as_bytes());

    let encoded = abi_encoder.encode(&args).unwrap();

    println!("Encoded ABI for ({}): {:#0x?}", sway_fn, encoded);

    assert_eq!(hex::encode(expected_encoded_abi), hex::encode(encoded));
    assert_eq!(abi_encoder.function_selector, expected_function_selector);
}

#[test]
fn encode_function_with_two_different_type() {
    let sway_fn = "takes_two_types(u32,bool)";
    let first = Token::U32(u32::MAX);
    let second = Token::Bool(true);

    let args: Vec<Token> = vec![first, second];

    let expected_encoded_abi = [
        0x0, 0x0, 0x0, 0x0, 0xff, 0xff, 0xff, 0xff, 0x0, 0x0, 0x0, 0x0, 0x0, 0x0, 0x0, 0x1,
    ];

    let expected_function_selector = [0x0, 0x0, 0x0, 0x0, 0xf5, 0x40, 0x73, 0x2b];

    let mut abi_encoder = ABIEncoder::new_with_fn_selector(sway_fn.as_bytes());

    let encoded = abi_encoder.encode(&args).unwrap();

    println!("Encoded ABI for ({}) {:#0x?}", sway_fn, encoded);

    assert_eq!(hex::encode(expected_encoded_abi), hex::encode(encoded));
    assert_eq!(abi_encoder.function_selector, expected_function_selector);
}

#[test]
fn encode_function_with_byte_type() {
    let sway_fn = "takes_one_byte(byte)";
    let arg = Token::Byte(u8::MAX);

    let args: Vec<Token> = vec![arg];

    let expected_encoded_abi = [0x0, 0x0, 0x0, 0x0, 0x0, 0x0, 0x0, 0xff];

    let expected_function_selector = [0x0, 0x0, 0x0, 0x0, 0x2e, 0xe3, 0xce, 0x1f];

    let mut abi_encoder = ABIEncoder::new_with_fn_selector(sway_fn.as_bytes());

    let encoded = abi_encoder.encode(&args).unwrap();

    println!("Encoded ABI for ({}): {:#0x?}", sway_fn, encoded);

    assert_eq!(hex::encode(expected_encoded_abi), hex::encode(encoded));
    assert_eq!(abi_encoder.function_selector, expected_function_selector);
}

#[test]
fn encode_function_with_bits256_type() {
    let sway_fn = "takes_bits256(b256)";

    let mut hasher = Sha256::new();
    hasher.update("test string".as_bytes());

    let arg = hasher.finalize();

    let arg = Token::B256(arg.into());

    let args: Vec<Token> = vec![arg];

    let expected_encoded_abi = [
        0xd5, 0x57, 0x9c, 0x46, 0xdf, 0xcc, 0x7f, 0x18, 0x20, 0x70, 0x13, 0xe6, 0x5b, 0x44, 0xe4,
        0xcb, 0x4e, 0x2c, 0x22, 0x98, 0xf4, 0xac, 0x45, 0x7b, 0xa8, 0xf8, 0x27, 0x43, 0xf3, 0x1e,
        0x93, 0xb,
    ];

    let expected_function_selector = [0x0, 0x0, 0x0, 0x0, 0x01, 0x49, 0x42, 0x96];

    let mut abi_encoder = ABIEncoder::new_with_fn_selector(sway_fn.as_bytes());

    let encoded = abi_encoder.encode(&args).unwrap();

    println!("Encoded ABI for ({}): {:#0x?}", sway_fn, encoded);

    assert_eq!(hex::encode(expected_encoded_abi), hex::encode(encoded));
    assert_eq!(abi_encoder.function_selector, expected_function_selector);
}

#[test]
fn encode_function_with_array_type() {
    let sway_fn = "takes_integer_array(u8[3])";

    // Keeping the construction of the arguments array separate for better readability.
    let first = Token::U8(1);
    let second = Token::U8(2);
    let third = Token::U8(3);

    let arg = vec![first, second, third];
    let arg_array = Token::Array(arg);

    let args: Vec<Token> = vec![arg_array];

    let expected_encoded_abi = [
        0x0, 0x0, 0x0, 0x0, 0x0, 0x0, 0x0, 0x1, 0x0, 0x0, 0x0, 0x0, 0x0, 0x0, 0x0, 0x2, 0x0, 0x0,
        0x0, 0x0, 0x0, 0x0, 0x0, 0x3,
    ];

    let expected_function_selector = [0x0, 0x0, 0x0, 0x0, 0x2c, 0x5a, 0x10, 0x2e];

    let mut abi_encoder = ABIEncoder::new_with_fn_selector(sway_fn.as_bytes());

    let encoded = abi_encoder.encode(&args).unwrap();

    println!("Encoded ABI for ({}): {:#0x?}", sway_fn, encoded);

    assert_eq!(hex::encode(expected_encoded_abi), hex::encode(encoded));
    assert_eq!(abi_encoder.function_selector, expected_function_selector);
}

#[test]
fn encode_function_with_string_type() {
    let sway_fn = "takes_string(str[23])";

    let args: Vec<Token> = vec![Token::String("This is a full sentence".into())];

    let expected_encoded_abi = [
        0x54, 0x68, 0x69, 0x73, 0x20, 0x69, 0x73, 0x20, 0x61, 0x20, 0x66, 0x75, 0x6c, 0x6c, 0x20,
        0x73, 0x65, 0x6e, 0x74, 0x65, 0x6e, 0x63, 0x65, 0x00,
    ];

    let expected_function_selector = [0x0, 0x0, 0x0, 0x0, 0xd5, 0x6e, 0x76, 0x51];

    let mut abi_encoder = ABIEncoder::new_with_fn_selector(sway_fn.as_bytes());

    let encoded = abi_encoder.encode(&args).unwrap();

    println!("Encoded ABI for ({}): {:#0x?}", sway_fn, encoded);

    assert_eq!(hex::encode(expected_encoded_abi), hex::encode(encoded));
    assert_eq!(abi_encoder.function_selector, expected_function_selector);
}

#[test]
fn encode_function_with_struct() {
    let sway_fn = "takes_my_struct(MyStruct)";

    // Sway struct:
    // struct MyStruct {
    //     foo: u8,
    //     bar: bool,
    // }

    let foo = Token::U8(1);
    let bar = Token::Bool(true);

    // Create the custom struct token using the array of tuples above
    let arg = Token::Struct(vec![foo, bar]);

    let args: Vec<Token> = vec![arg];

    let expected_encoded_abi = [
        0x0, 0x0, 0x0, 0x0, 0x0, 0x0, 0x0, 0x1, 0x0, 0x0, 0x0, 0x0, 0x0, 0x0, 0x0, 0x1,
    ];

    let expected_function_selector = [0x0, 0x0, 0x0, 0x0, 0xa8, 0x1e, 0x8d, 0xd7];

    let mut abi_encoder = ABIEncoder::new_with_fn_selector(sway_fn.as_bytes());

    let encoded = abi_encoder.encode(&args).unwrap();

    println!("Encoded ABI for ({}): {:#0x?}", sway_fn, encoded);

    assert_eq!(hex::encode(expected_encoded_abi), hex::encode(encoded));
    assert_eq!(abi_encoder.function_selector, expected_function_selector);
}

#[test]
fn encode_function_with_enum() {
    let sway_fn = "takes_my_enum(MyEnum)";

    // Sway enum:
    // enum MyEnum {
    //     x: u32,
    //     y: bool,
    // }
    let params = EnumVariants::new(vec![ParamType::U32, ParamType::Bool]).unwrap();

    // An `EnumSelector` indicating that we've chosen the first Enum variant,
    // whose value is 42 of the type ParamType::U32 and that the Enum could
    // have held any of the other types present in `params`.

    let enum_selector = Box::new((0, Token::U32(42), params));

    let arg = Token::Enum(enum_selector);

    let args: Vec<Token> = vec![arg];

    let expected_encoded_abi = [
        0x0, 0x0, 0x0, 0x0, 0x0, 0x0, 0x0, 0x0, 0x0, 0x0, 0x0, 0x0, 0x0, 0x0, 0x0, 0x2a,
    ];

    let expected_function_selector = [0x0, 0x0, 0x0, 0x0, 0x35, 0x5c, 0xa6, 0xfa];

    let mut abi_encoder = ABIEncoder::new_with_fn_selector(sway_fn.as_bytes());

    let encoded = abi_encoder.encode(&args).unwrap();

    assert_eq!(hex::encode(expected_encoded_abi), hex::encode(encoded));
    assert_eq!(abi_encoder.function_selector, expected_function_selector);
}

#[test]
fn enums_are_sized_to_fit_the_biggest_variant() {
    let enum_variants = EnumVariants::new(vec![ParamType::B256, ParamType::U64]).unwrap();
    let enum_selector = Box::new((1, Token::U64(42), enum_variants));

    let fun = "takes_my_enum(MyEnum)".as_bytes();
    let encoded = ABIEncoder::new_with_fn_selector(fun)
        .encode(&vec![Token::Enum(enum_selector)])
        .unwrap();

    let enum_discriminant_enc = vec![0x0, 0x0, 0x0, 0x0, 0x0, 0x0, 0x0, 0x1];
    let u64_enc = vec![0x0, 0x0, 0x0, 0x0, 0x0, 0x0, 0x0, 0x2a];
    let enum_padding = vec![0x0; 24];
    let expected: Vec<u8> = [enum_discriminant_enc, enum_padding, u64_enc]
        .into_iter()
        .flatten()
        .collect();

    assert_eq!(hex::encode(expected), hex::encode(encoded));
}

#[test]
fn encoding_enums_with_deeply_nested_types() {
    /*
    enum DeeperEnum {
        v1: bool,
        v2: str[10]
    }
     */
    let deeper_enum_variants =
        EnumVariants::new(vec![ParamType::Bool, ParamType::String(10)]).unwrap();
    let deeper_enum_token = Token::String("0123456789".to_owned());

    /*
    struct StructA {
        some_enum: DeeperEnum
        some_number: u32
    }
     */

    let struct_a_type = ParamType::Struct(vec![
        ParamType::Enum(deeper_enum_variants.clone()),
        ParamType::Bool,
    ]);

    let struct_a_token = Token::Struct(vec![
        Token::Enum(Box::new((1, deeper_enum_token, deeper_enum_variants))),
        Token::U32(11332),
    ]);

    /*
     enum TopLevelEnum {
        v1: StructA,
        v2: bool,
        v3: u64
    }
    */

    let top_level_enum_variants =
        EnumVariants::new(vec![struct_a_type, ParamType::Bool, ParamType::U64]).unwrap();
    let top_level_enum_token = Token::Enum(Box::new((0, struct_a_token, top_level_enum_variants)));

    let encoded = ABIEncoder::new_with_fn_selector("takes_top_level_enum(TopLevelEnum)".as_bytes())
        .encode(&vec![top_level_enum_token])
        .unwrap();

    let top_lvl_discriminant_enc = vec![0x0; 8];
    let deeper_enum_discriminant_enc = vec![0x0, 0x0, 0x0, 0x0, 0x0, 0x0, 0x0, 0x1];
    let str_enc = vec![
        b'0', b'1', b'2', b'3', b'4', b'5', b'6', b'7', b'8', b'9', 0x0, 0x0, 0x0, 0x0, 0x0, 0x0,
    ];
    let some_number_enc = vec![0x0, 0x0, 0x0, 0x0, 0x0, 0x0, 0x2c, 0x44];

    let correct_encoding: Vec<u8> = [
        top_lvl_discriminant_enc,
        deeper_enum_discriminant_enc,
        str_enc,
        some_number_enc,
    ]
    .into_iter()
    .flatten()
    .collect();

    assert_eq!(hex::encode(correct_encoding), hex::encode(encoded));
}

#[test]
fn encode_function_with_nested_structs() {
    // Sway nested struct:
    // struct Foo {
    //     x: u16,
    //     y: Bar,
    // }
    //
    // struct Bar {
    //     a: bool,
    //     b: u8[2],
    // }

    let sway_fn = "takes_my_nested_struct(Foo)";

    let args: Vec<Token> = vec![Token::Struct(vec![
        Token::U16(10),
        Token::Struct(vec![
            Token::Bool(true),
            Token::Array(vec![Token::U8(1), Token::U8(2)]),
        ]),
    ])];

    let expected_encoded_abi = [
        0x0, 0x0, 0x0, 0x0, 0x0, 0x0, 0x0, 0xa, 0x0, 0x0, 0x0, 0x0, 0x0, 0x0, 0x0, 0x1, 0x0, 0x0,
        0x0, 0x0, 0x0, 0x0, 0x0, 0x1, 0x0, 0x0, 0x0, 0x0, 0x0, 0x0, 0x0, 0x2,
    ];

    let expected_function_selector = [0x0, 0x0, 0x0, 0x0, 0xea, 0x0a, 0xfd, 0x23];

    let mut abi_encoder = ABIEncoder::new_with_fn_selector(sway_fn.as_bytes());

    let encoded = abi_encoder.encode(&args).unwrap();

    println!("Encoded ABI for ({}): {:#0x?}", sway_fn, encoded);

    assert_eq!(hex::encode(expected_encoded_abi), hex::encode(encoded));
    assert_eq!(abi_encoder.function_selector, expected_function_selector);
}

#[test]
fn encode_comprehensive_function() {
    // Sway nested struct:
    // struct Foo {
    //     x: u16,
    //     y: Bar,
    // }
    //
    // struct Bar {
    //     a: bool,
    //     b: u8[2],
    // }

    let sway_fn = "long_function(Foo,u8[2],b256,str[23])";

    let foo = Token::Struct(vec![
        Token::U16(10),
        Token::Struct(vec![
            Token::Bool(true),
            Token::Array(vec![Token::U8(1), Token::U8(2)]),
        ]),
    ]);

    let u8_arr = Token::Array(vec![Token::U8(1), Token::U8(2)]);

    let mut hasher = Sha256::new();
    hasher.update("test string".as_bytes());

    let b256 = Token::B256(hasher.finalize().into());

    let s = Token::String("This is a full sentence".into());

    let args: Vec<Token> = vec![foo, u8_arr, b256, s];

    let expected_encoded_abi = [
        0x0, 0x0, 0x0, 0x0, 0x0, 0x0, 0x0, 0xa, // foo.x == 10u16
        0x0, 0x0, 0x0, 0x0, 0x0, 0x0, 0x0, 0x1, // foo.y.a == true
        0x0, 0x0, 0x0, 0x0, 0x0, 0x0, 0x0, 0x1, // foo.b.0 == 1u8
        0x0, 0x0, 0x0, 0x0, 0x0, 0x0, 0x0, 0x2, // foo.b.1 == 2u8
        0x0, 0x0, 0x0, 0x0, 0x0, 0x0, 0x0, 0x1, // u8[2].0 == 1u8
        0x0, 0x0, 0x0, 0x0, 0x0, 0x0, 0x0, 0x2, // u8[2].0 == 2u8
        0xd5, 0x57, 0x9c, 0x46, 0xdf, 0xcc, 0x7f, 0x18, // b256
        0x20, 0x70, 0x13, 0xe6, 0x5b, 0x44, 0xe4, 0xcb, // b256
        0x4e, 0x2c, 0x22, 0x98, 0xf4, 0xac, 0x45, 0x7b, // b256
        0xa8, 0xf8, 0x27, 0x43, 0xf3, 0x1e, 0x93, 0xb, // b256
        0x54, 0x68, 0x69, 0x73, 0x20, 0x69, 0x73, 0x20, // str[23]
        0x61, 0x20, 0x66, 0x75, 0x6c, 0x6c, 0x20, 0x73, // str[23]
        0x65, 0x6e, 0x74, 0x65, 0x6e, 0x63, 0x65, 0x0, // str[23]
    ];

    let expected_function_selector = [0x0, 0x0, 0x0, 0x0, 0x10, 0x93, 0xb2, 0x12];

    let mut abi_encoder = ABIEncoder::new_with_fn_selector(sway_fn.as_bytes());

    let encoded = abi_encoder.encode(&args).unwrap();

    println!("Encoded ABI for ({}): {:#0x?}", sway_fn, encoded);

    println!(
        "abi_encoder.function_selector: {:#0x?}\n",
        abi_encoder.function_selector
    );

    assert_eq!(hex::encode(expected_encoded_abi), hex::encode(encoded));
    assert_eq!(abi_encoder.function_selector, expected_function_selector);
}
